//! Continuous batching on the CPU: request queue, slots and accounting.
//!
//! Requests queue on `add`, are admitted as slots free up, prefilled one per step, then decoded
//! one token per step until their `max_new` budget is exhausted. The model and the prefix cache
//! run outside: one step is [`CpuEngine::begin_step`], the prefill it names, the models' next
//! tokens, [`CpuEngine::decode`], and [`CpuEngine::finish_slot`] for each slot that is done.
//!
//! `capacity` bounds only the number of concurrent slots; the admission queue is bounded by
//! `max_pending` (backpressure) and completed records by `max_finished` (oldest dropped).
//! `max_new = 0` is accepted: the prompt is prefilled and the request finishes with no decoded
//! tokens.

use vstd::prelude::*;

use std::collections::VecDeque;

use crate::sequence::copy_tokens;

verus! {

/// Why a request is not accepted.
#[derive(Debug, Clone, Copy, PartialEq, Eq, Structural)]
pub enum CpuEngineError {
    EmptyPrompt,
    /// The admission queue is full.
    QueueFull,
}

/// A request waiting for a free slot.
pub struct PendingRequest {
    pub id: u64,
    pub prompt: Vec<u32>,
    pub max_new: usize,
}

/// An admitted, in-flight request.
pub struct Slot {
    pub id: u64,
    pub prompt: Vec<u32>,
    pub max_new: usize,
    pub generated: Vec<u32>,
    /// The prompt is computed and tokens are decoded.
    pub decoding: bool,
    /// The token that the model proposes next.
    pub next: u32,
    pub reused_tokens: usize,
    pub computed_tokens: usize,
}

/// A completed request's output and prefix-reuse accounting.
#[derive(Debug, Clone)]
pub struct FinishedRequest {
    pub id: u64,
    pub generated: Vec<u32>,
    pub reused_tokens: usize,
    pub computed_tokens: usize,
    pub total_prompt_tokens: usize,
}

/// Aggregate engine accounting.
#[derive(Debug, Clone, Copy, PartialEq, Eq, Structural)]
pub struct CpuEngineStats {
    pub requests: usize,
    pub steps: u64,
    pub prompt_tokens_total: usize,
    pub prompt_tokens_reused: usize,
    pub prompt_tokens_computed: usize,
    pub decoded_tokens: usize,
}

pub struct PendingView {
    pub id: u64,
    pub prompt: Seq<u32>,
    pub max_new: usize,
}

pub struct SlotView {
    pub id: u64,
    pub prompt: Seq<u32>,
    pub max_new: usize,
    pub generated: Seq<u32>,
    pub decoding: bool,
    pub next: u32,
    pub reused_tokens: usize,
    pub computed_tokens: usize,
}

pub struct RequestView {
    pub id: u64,
    pub generated: Seq<u32>,
    pub reused_tokens: usize,
    pub computed_tokens: usize,
    pub total_prompt_tokens: usize,
}

impl View for PendingRequest {
    type V = PendingView;

    open spec fn view(&self) -> PendingView {
        PendingView { id: self.id, prompt: self.prompt@, max_new: self.max_new }
    }
}

impl View for Slot {
    type V = SlotView;

    open spec fn view(&self) -> SlotView {
        SlotView {
            id: self.id,
            prompt: self.prompt@,
            max_new: self.max_new,
            generated: self.generated@,
            decoding: self.decoding,
            next: self.next,
            reused_tokens: self.reused_tokens,
            computed_tokens: self.computed_tokens,
        }
    }
}

impl View for FinishedRequest {
    type V = RequestView;

    open spec fn view(&self) -> RequestView {
        RequestView {
            id: self.id,
            generated: self.generated@,
            reused_tokens: self.reused_tokens,
            computed_tokens: self.computed_tokens,
            total_prompt_tokens: self.total_prompt_tokens,
        }
    }
}

/// The state of a [`CpuEngine`].
pub struct CpuView {
    pub slots: Seq<Option<SlotView>>,
    pub pending: Seq<PendingView>,
    pub max_pending: usize,
    pub next_id: u64,
    pub finished: Seq<RequestView>,
    pub max_finished: usize,
    pub stats: CpuEngineStats,
}

pub open spec fn no_stats() -> CpuEngineStats {
    CpuEngineStats {
        requests: 0,
        steps: 0,
        prompt_tokens_total: 0,
        prompt_tokens_reused: 0,
        prompt_tokens_computed: 0,
        decoded_tokens: 0,
    }
}

impl PendingView {
    /// The slot of an admitted request.
    pub open spec fn admitted(self) -> SlotView {
        SlotView {
            id: self.id,
            prompt: self.prompt,
            max_new: self.max_new,
            generated: Seq::empty(),
            decoding: false,
            next: 0,
            reused_tokens: 0,
            computed_tokens: 0,
        }
    }
}

impl SlotView {
    /// The slot after its prompt was served.
    pub open spec fn served(self, next: u32, reused: usize, computed: usize) -> SlotView {
        SlotView {
            decoding: true,
            next,
            reused_tokens: reused,
            computed_tokens: computed,
            ..self
        }
    }

    /// A decoding slot within its budget takes the proposed token.
    pub open spec fn takes_token(self) -> bool {
        self.decoding && self.generated.len() < self.max_new
    }

    pub open spec fn decoded(self) -> SlotView {
        if self.takes_token() {
            SlotView { generated: self.generated.push(self.next), ..self }
        } else {
            self
        }
    }

    /// The budget is exhausted.
    pub open spec fn exhausted(self) -> bool {
        self.decoding && self.generated.len() >= self.max_new
    }

    pub open spec fn record(self) -> RequestView {
        RequestView {
            id: self.id,
            generated: self.generated,
            reused_tokens: self.reused_tokens,
            computed_tokens: self.computed_tokens,
            total_prompt_tokens: self.prompt.len() as usize,
        }
    }
}

/// Slots and queue after the free slots from `i` on were filled from the front of the queue.
pub open spec fn admit_from(
    slots: Seq<Option<SlotView>>,
    pending: Seq<PendingView>,
    i: nat,
) -> (Seq<Option<SlotView>>, Seq<PendingView>)
    decreases slots.len() - i,
{
    if i >= slots.len() || pending.len() == 0 {
        (slots, pending)
    } else if slots[i as int] is None {
        admit_from(slots.update(i as int, Some(pending[0].admitted())), pending.skip(1), i + 1)
    } else {
        admit_from(slots, pending, i + 1)
    }
}

/// The first slot from `i` on whose prompt is not computed yet.
pub open spec fn first_waiting(slots: Seq<Option<SlotView>>, i: nat) -> Option<usize>
    decreases slots.len() - i,
{
    if i >= slots.len() {
        None
    } else if slots[i as int] is Some && !slots[i as int]->0.decoding {
        Some(i as usize)
    } else {
        first_waiting(slots, i + 1)
    }
}

pub open spec fn decode_all(slots: Seq<Option<SlotView>>) -> Seq<Option<SlotView>> {
    slots.map_values(
        |s: Option<SlotView>|
            match s {
                Some(s) => Some(s.decoded()),
                None => None,
            },
    )
}

/// The tokens that the slots below `n` take.
pub open spec fn taken(slots: Seq<Option<SlotView>>, n: nat) -> Seq<(usize, u32)>
    decreases n,
{
    if n == 0 {
        Seq::empty()
    } else {
        let rest = taken(slots, (n - 1) as nat);
        match slots[n - 1] {
            Some(s) => if s.takes_token() {
                rest.push(((n - 1) as usize, s.next))
            } else {
                rest
            },
            None => rest,
        }
    }
}

/// The slots below `n` whose budget is exhausted.
pub open spec fn exhausted_slots(slots: Seq<Option<SlotView>>, n: nat) -> Seq<usize>
    decreases n,
{
    if n == 0 {
        Seq::empty()
    } else {
        let rest = exhausted_slots(slots, (n - 1) as nat);
        match slots[n - 1] {
            Some(s) => if s.exhausted() {
                rest.push((n - 1) as usize)
            } else {
                rest
            },
            None => rest,
        }
    }
}

/// The last `n` elements.
pub open spec fn newest<A>(s: Seq<A>, n: int) -> Seq<A> {
    if s.len() <= n {
        s
    } else {
        s.skip(s.len() - n)
    }
}

impl CpuView {
    pub open spec fn idle(self) -> bool {
        self.pending.len() == 0 && forall|i: int|
            0 <= i < self.slots.len() ==> (#[trigger] self.slots[i]) is None
    }

    pub open spec fn wf(self) -> bool {
        &&& self.slots.len() > 0
        &&& self.pending.len() <= self.max_pending
        &&& self.finished.len() <= self.max_finished
    }

    pub open spec fn admitted(self) -> CpuView {
        let r = admit_from(self.slots, self.pending, 0);
        CpuView { slots: r.0, pending: r.1, ..self }
    }

    pub open spec fn counted_step(self) -> CpuView {
        CpuView {
            stats: CpuEngineStats { steps: (self.stats.steps + 1) as u64, ..self.stats },
            ..self
        }
    }

    /// The totals with slot `s` added.
    pub open spec fn stats_with(self, s: SlotView) -> CpuEngineStats {
        CpuEngineStats {
            requests: (self.stats.requests + 1) as usize,
            prompt_tokens_total: (self.stats.prompt_tokens_total + s.prompt.len()) as usize,
            prompt_tokens_reused: (self.stats.prompt_tokens_reused + s.reused_tokens) as usize,
            prompt_tokens_computed: (self.stats.prompt_tokens_computed + s.computed_tokens)
                as usize,
            decoded_tokens: (self.stats.decoded_tokens + s.generated.len()) as usize,
            ..self.stats
        }
    }

    /// The totals with slot `s` added are machine words.
    pub open spec fn stats_room(self, s: SlotView) -> bool {
        &&& self.stats.requests < usize::MAX
        &&& self.stats.prompt_tokens_total + s.prompt.len() <= usize::MAX
        &&& self.stats.prompt_tokens_reused + s.reused_tokens <= usize::MAX
        &&& self.stats.prompt_tokens_computed + s.computed_tokens <= usize::MAX
        &&& self.stats.decoded_tokens + s.generated.len() <= usize::MAX
    }

    /// The state after the request in slot `idx` completed.
    pub open spec fn finished_slot(self, idx: int) -> CpuView {
        let s = self.slots[idx]->0;
        CpuView {
            slots: self.slots.update(idx, None),
            finished: newest(self.finished.push(s.record()), self.max_finished as int),
            stats: self.stats_with(s),
            ..self
        }
    }
}

pub open spec fn slot_view(s: Option<Slot>) -> Option<SlotView> {
    match s {
        Some(s) => Some(s@),
        None => None,
    }
}

pub open spec fn slot_views(v: Seq<Option<Slot>>) -> Seq<Option<SlotView>> {
    v.map_values(|s: Option<Slot>| slot_view(s))
}

pub open spec fn pending_views(v: Seq<PendingRequest>) -> Seq<PendingView> {
    v.map_values(|p: PendingRequest| p@)
}

pub open spec fn request_views(v: Seq<FinishedRequest>) -> Seq<RequestView> {
    v.map_values(|f: FinishedRequest| f@)
}

/// What a step asks for before its tokens are decoded.
#[derive(Debug, Clone, Copy, PartialEq, Eq, Structural)]
pub struct CpuStep {
    /// The slot whose prompt is computed in this step.
    pub prefill: Option<usize>,
}

/// The outcome of decoding one token per slot.
pub struct CpuDecoded {
    /// Tokens by slot, which the models consume.
    pub tokens: Vec<(usize, u32)>,
    /// Slots to finish.
    pub done: Vec<usize>,
}

/// CPU continuous-batching engine.
pub struct CpuEngine {
    slots: Vec<Option<Slot>>,
    pending: VecDeque<PendingRequest>,
    max_pending: usize,
    next_id: u64,
    finished: Vec<FinishedRequest>,
    max_finished: usize,
    stats: CpuEngineStats,
}

impl View for CpuEngine {
    type V = CpuView;

    closed spec fn view(&self) -> CpuView {
        CpuView {
            slots: slot_views(self.slots@),
            pending: pending_views(self.pending@),
            max_pending: self.max_pending,
            next_id: self.next_id,
            finished: request_views(self.finished@),
            max_finished: self.max_finished,
            stats: self.stats,
        }
    }
}

impl CpuEngine {
    /// The invariant of the engine.
    pub open spec fn wf(&self) -> bool {
        self@.wf()
    }

    /// An engine with `capacity` concurrent slots.
    #[must_use]
    pub fn new(capacity: usize) -> (e: CpuEngine)
        requires
            capacity > 0,
        ensures
            e.wf(),
            e@ == (CpuView {
                slots: Seq::new(capacity as nat, |i: int| None::<SlotView>),
                pending: Seq::empty(),
                max_pending: usize::MAX,
                next_id: 1,
                finished: Seq::empty(),
                max_finished: usize::MAX,
                stats: no_stats(),
            }),
    {
        CpuEngine::new_with_limits(capacity, usize::MAX, usize::MAX)
    }

    /// An engine with bounded admission queue and completed records: `max_pending` caps
    /// queued-but-not-admitted requests, `max_finished` caps retained records.
    #[must_use]
    pub fn new_with_limits(capacity: usize, max_pending: usize, max_finished: usize) -> (e:
        CpuEngine)
        requires
            capacity > 0,
        ensures
            e.wf(),
            e@ == (CpuView {
                slots: Seq::new(capacity as nat, |i: int| None::<SlotView>),
                pending: Seq::empty(),
                max_pending,
                next_id: 1,
                finished: Seq::empty(),
                max_finished,
                stats: no_stats(),
            }),
    {
        let mut slots: Vec<Option<Slot>> = Vec::new();
        let mut i: usize = 0;
        while i < capacity
            invariant
                i <= capacity,
                slots.len() == i,
                forall|k: int| 0 <= k < i ==> (#[trigger] slots[k]) is None,
            decreases capacity - i,
        {
            slots.push(None);
            i = i + 1;
        }
        let e = CpuEngine {
            slots,
            pending: VecDeque::new(),
            max_pending,
            next_id: 1,
            finished: Vec::new(),
            max_finished,
            stats: CpuEngineStats {
                requests: 0,
                steps: 0,
                prompt_tokens_total: 0,
                prompt_tokens_reused: 0,
                prompt_tokens_computed: 0,
                decoded_tokens: 0,
            },
        };
        assert(e@.slots =~= Seq::new(capacity as nat, |i: int| None::<SlotView>));
        assert(e@.pending =~= Seq::empty());
        assert(e@.finished =~= Seq::empty());
        e
    }

    /// Maximum number of concurrent in-flight requests.
    #[must_use]
    pub fn capacity(&self) -> (n: usize)
        ensures
            n == self@.slots.len(),
    {
        self.slots.len()
    }

    /// Queues a request; returns its id.
    pub fn add(&mut self, prompt: &[u32], max_new: usize) -> (r: Result<u64, CpuEngineError>)
        requires
            old(self).wf(),
            old(self)@.next_id < u64::MAX,
            old(self)@.pending.len() < usize::MAX,
        ensures
            final(self).wf(),
            match r {
                Ok(id) => {
                    &&& prompt@.len() > 0
                    &&& old(self)@.pending.len() < old(self)@.max_pending
                    &&& id == old(self)@.next_id
                    &&& final(self)@ == (CpuView {
                        pending: old(self)@.pending.push(
                            PendingView { id, prompt: prompt@, max_new },
                        ),
                        next_id: (id + 1) as u64,
                        ..old(self)@
                    })
                },
                Err(e) => final(self)@ == old(self)@ && match e {
                    CpuEngineError::EmptyPrompt => prompt@.len() == 0,
                    CpuEngineError::QueueFull => prompt@.len() > 0 && old(self)@.pending.len()
                        == old(self)@.max_pending,
                },
            },
    {
        if prompt.len() == 0 {
            return Err(CpuEngineError::EmptyPrompt);
        }
        if self.pending.len() >= self.max_pending {
            return Err(CpuEngineError::QueueFull);
        }
        let ghost v = self@;
        let id: u64 = self.next_id;
        self.next_id = self.next_id + 1;
        self.pending.push_back(PendingRequest { id, prompt: copy_tokens(prompt), max_new });
        assert(self@.pending =~= v.pending.push(PendingView { id, prompt: prompt@, max_new }));
        Ok(id)
    }

    /// Completed requests, in finish order.
    #[must_use]
    pub fn finished(&self) -> (f: &Vec<FinishedRequest>)
        ensures
            request_views(f@) == self@.finished,
    {
        &self.finished
    }

    /// Takes and clears the completed records.
    pub fn drain_finished(&mut self) -> (f: Vec<FinishedRequest>)
        requires
            old(self).wf(),
        ensures
            final(self).wf(),
            request_views(f@) == old(self)@.finished,
            final(self)@ == (CpuView { finished: Seq::empty(), ..old(self)@ }),
    {
        let mut f: Vec<FinishedRequest> = Vec::new();
        std::mem::swap(&mut f, &mut self.finished);
        assert(self@.finished =~= Seq::empty());
        f
    }

    /// Aggregate engine stats.
    #[must_use]
    pub fn stats(&self) -> (s: &CpuEngineStats)
        ensures
            *s == self@.stats,
    {
        &self.stats
    }

    /// True when no requests are queued or in flight.
    #[must_use]
    pub fn is_idle(&self) -> (b: bool)
        ensures
            b == self@.idle(),
    {
        if self.pending.len() > 0 {
            return false;
        }
        let ghost slots = self@.slots;
        let mut i: usize = 0;
        while i < self.slots.len()
            invariant
                i <= self.slots.len(),
                slots == slot_views(self.slots@),
                forall|k: int| 0 <= k < i ==> (#[trigger] slots[k]) is None,
            decreases self.slots.len() - i,
        {
            assert(slots[i as int] == slot_view(self.slots[i as int]));
            if self.slots[i].is_some() {
                return false;
            }
            i = i + 1;
        }
        true
    }

    /// Admits queued requests into any free slot.
    fn admit_pending(&mut self)
        requires
            old(self).wf(),
        ensures
            final(self).wf(),
            final(self)@ == old(self)@.admitted(),
    {
        let ghost v = self@;
        let mut i: usize = 0;
        while i < self.slots.len()
            invariant
                i <= self.slots.len(),
                v == old(self)@,
                v.wf(),
                self@ == (CpuView { slots: self@.slots, pending: self@.pending, ..v }),
                self@.pending.len() <= v.pending.len(),
                self@.slots.len() == v.slots.len() == self.slots.len(),
                admit_from(self@.slots, self@.pending, i as nat) == admit_from(
                    v.slots,
                    v.pending,
                    0,
                ),
            decreases self.slots.len() - i,
        {
            let ghost before = self@;
            assert(self@.slots[i as int] == slot_view(self.slots[i as int]));
            if self.slots[i].is_none() {
                if let Some(req) = self.pending.pop_front() {
                    let ghost p = req@;
                    assert(p == before.pending[0]);
                    assert(self@.pending =~= before.pending.skip(1));
                    let slot = Slot {
                        id: req.id,
                        prompt: req.prompt,
                        max_new: req.max_new,
                        generated: Vec::new(),
                        decoding: false,
                        next: 0,
                        reused_tokens: 0,
                        computed_tokens: 0,
                    };
                    assert(slot@.generated =~= Seq::empty());
                    self.slots.set(i, Some(slot));
                    assert(self@.slots =~= before.slots.update(i as int, Some(p.admitted())));
                } else {
                    assert(self@ == before);
                    assert(before.pending.len() == 0);
                    return ;
                }
            }
            i = i + 1;
        }
    }

    /// Starts a step: admits queued requests and names the slot to prefill, the first whose
    /// prompt is not computed yet. `None` when the engine is idle.
    pub fn begin_step(&mut self) -> (r: Option<CpuStep>)
        requires
            old(self).wf(),
            old(self)@.stats.steps < u64::MAX,
        ensures
            final(self).wf(),
            match r {
                Some(step) => {
                    &&& !old(self)@.admitted().idle()
                    &&& final(self)@ == old(self)@.admitted().counted_step()
                    &&& step.prefill == first_waiting(final(self)@.slots, 0)
                },
                None => old(self)@.admitted().idle() && final(self)@ == old(self)@.admitted(),
            },
    {
        self.admit_pending();
        if self.is_idle() {
            return None;
        }
        self.stats.steps = self.stats.steps + 1;
        let ghost slots = self@.slots;
        let mut i: usize = 0;
        while i < self.slots.len()
            invariant
                i <= self.slots.len(),
                slots == slot_views(self.slots@),
                self@ == old(self)@.admitted().counted_step(),
                self.wf(),
                self@.slots == slots,
                !old(self)@.admitted().idle(),
                first_waiting(slots, 0) == first_waiting(slots, i as nat),
            decreases self.slots.len() - i,
        {
            assert(slots[i as int] == slot_view(self.slots[i as int]));
            if let Some(s) = &self.slots[i] {
                if !s.decoding {
                    return Some(CpuStep { prefill: Some(i) });
                }
            }
            i = i + 1;
        }
        Some(CpuStep { prefill: None })
    }

    /// The prompt of a slot that waits for it.
    pub fn prompt(&self, slot: usize) -> (p: Option<&Vec<u32>>)
        requires
            slot < self@.slots.len(),
        ensures
            match p {
                Some(p) => self@.slots[slot as int] is Some && p@
                    == self@.slots[slot as int]->0.prompt,
                None => self@.slots[slot as int] is None,
            },
    {
        assert(self@.slots[slot as int] == slot_view(self.slots[slot as int]));
        match &self.slots[slot] {
            Some(s) => Some(&s.prompt),
            None => None,
        }
    }

    /// The prompt of `slot` is computed: `next` is the model's first token, `reused` prompt
    /// tokens came from the cache and `computed` were computed.
    pub fn prefilled(&mut self, slot: usize, next: u32, reused: usize, computed: usize)
        requires
            old(self).wf(),
            slot < old(self)@.slots.len(),
            old(self)@.slots[slot as int] is Some,
        ensures
            final(self).wf(),
            final(self)@ == (CpuView {
                slots: old(self)@.slots.update(
                    slot as int,
                    Some(old(self)@.slots[slot as int]->0.served(next, reused, computed)),
                ),
                ..old(self)@
            }),
    {
        let ghost v = self@;
        assert(v.slots[slot as int] == slot_view(self.slots[slot as int]));
        let mut taken: Option<Slot> = None;
        std::mem::swap(&mut taken, &mut self.slots[slot]);
        if let Some(mut s) = taken {
            s.decoding = true;
            s.next = next;
            s.reused_tokens = reused;
            s.computed_tokens = computed;
            self.slots.set(slot, Some(s));
        }
        assert(self@.slots =~= v.slots.update(
            slot as int,
            Some(v.slots[slot as int]->0.served(next, reused, computed)),
        ));
    }

    /// The model of `slot` consumed its token and proposes `next`.
    pub fn set_next(&mut self, slot: usize, next: u32)
        requires
            old(self).wf(),
            slot < old(self)@.slots.len(),
            old(self)@.slots[slot as int] is Some,
        ensures
            final(self).wf(),
            final(self)@ == (CpuView {
                slots: old(self)@.slots.update(
                    slot as int,
                    Some(SlotView { next, ..old(self)@.slots[slot as int]->0 }),
                ),
                ..old(self)@
            }),
    {
        let ghost v = self@;
        assert(v.slots[slot as int] == slot_view(self.slots[slot as int]));
        let mut taken: Option<Slot> = None;
        std::mem::swap(&mut taken, &mut self.slots[slot]);
        if let Some(mut s) = taken {
            s.next = next;
            self.slots.set(slot, Some(s));
        }
        assert(self@.slots =~= v.slots.update(
            slot as int,
            Some(SlotView { next, ..v.slots[slot as int]->0 }),
        ));
    }

    /// Decodes one token for every slot whose prompt is computed and whose budget is not
    /// exhausted.
    pub fn decode(&mut self) -> (d: CpuDecoded)
        requires
            old(self).wf(),
        ensures
            final(self).wf(),
            final(self)@ == (CpuView { slots: decode_all(old(self)@.slots), ..old(self)@ }),
            d.tokens@ == taken(old(self)@.slots, old(self)@.slots.len()),
            d.done@ == exhausted_slots(decode_all(old(self)@.slots), old(self)@.slots.len()),
    {
        let ghost v = self@;
        let ghost after = decode_all(v.slots);
        let n: usize = self.slots.len();
        let mut tokens: Vec<(usize, u32)> = Vec::new();
        let mut done: Vec<usize> = Vec::new();
        let mut i: usize = 0;
        while i < n
            invariant
                i <= n,
                n == self.slots.len() == v.slots.len(),
                after == decode_all(v.slots),
                self@ == (CpuView { slots: slot_views(self.slots@), ..v }),
                forall|k: int| 0 <= k < i ==> slot_view(#[trigger] self.slots[k]) == after[k],
                forall|k: int|
                    i <= k < n ==> slot_view(#[trigger] self.slots[k]) == v.slots[k],
                tokens@ == taken(v.slots, i as nat),
                done@ == exhausted_slots(after, i as nat),
            decreases n - i,
        {
            assert(slot_view(self.slots[i as int]) == v.slots[i as int]);
            let ghost before = self.slots@;
            let mut held: Option<Slot> = None;
            std::mem::swap(&mut held, &mut self.slots[i]);
            if let Some(mut s) = held {
                let ghost sv = s@;
                if s.decoding {
                    if s.generated.len() < s.max_new {
                        tokens.push((i, s.next));
                        s.generated.push(s.next);
                    }
                    if s.generated.len() >= s.max_new {
                        done.push(i);
                    }
                }
                assert(s@ == sv.decoded());
                self.slots.set(i, Some(s));
            }
            assert(slot_view(self.slots[i as int]) == after[i as int]);
            i = i + 1;
        }
        assert(slot_views(self.slots@) =~= after);
        CpuDecoded { tokens, done }
    }

    /// Moves a finished slot into the completed records and frees the slot.
    pub fn finish_slot(&mut self, idx: usize)
        requires
            old(self).wf(),
            idx < old(self)@.slots.len(),
            old(self)@.slots[idx as int] is Some,
            old(self)@.stats_room(old(self)@.slots[idx as int]->0),
            old(self)@.finished.len() < usize::MAX,
        ensures
            final(self).wf(),
            final(self)@ == old(self)@.finished_slot(idx as int),
    {
        let ghost v = self@;
        assert(v.slots[idx as int] == slot_view(self.slots[idx as int]));
        let mut taken: Option<Slot> = None;
        std::mem::swap(&mut taken, &mut self.slots[idx]);
        assert(self@.slots =~= v.slots.update(idx as int, None));
        if let Some(slot) = taken {
            self.stats.requests = self.stats.requests + 1;
            self.stats.prompt_tokens_total = self.stats.prompt_tokens_total + slot.prompt.len();
            self.stats.prompt_tokens_reused = self.stats.prompt_tokens_reused
                + slot.reused_tokens;
            self.stats.prompt_tokens_computed = self.stats.prompt_tokens_computed
                + slot.computed_tokens;
            self.stats.decoded_tokens = self.stats.decoded_tokens + slot.generated.len();
            let f = FinishedRequest {
                id: slot.id,
                total_prompt_tokens: slot.prompt.len(),
                generated: slot.generated,
                reused_tokens: slot.reused_tokens,
                computed_tokens: slot.computed_tokens,
            };
            let ghost fv = f@;
            self.finished.push(f);
            assert(request_views(self.finished@) =~= v.finished.push(fv));
            let ghost all = v.finished.push(fv);
            if self.finished.len() > self.max_finished {
                let _ = self.finished.remove(0);
                assert(request_views(self.finished@) =~= all.skip(1));
            }
            assert(self@.finished =~= newest(all, v.max_finished as int));
        }
    }
}

} // verus!
