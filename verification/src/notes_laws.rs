//! What a step records, fetches and copies out beside its computation, and how it chooses its
//! kernels.

use vstd::prelude::*;

use crate::device::Buf;
use crate::device::ExpertSource;
use crate::device::GemmPath;
use crate::device::MoeTrace;
use crate::device::Op;
use crate::device::ProfPoint;
use crate::device::Run;
use crate::device::Tensor;
use crate::forward::opt;
use crate::forward::LayerDev;
use crate::forward::Step;

verus! {

/// The operation records, fetches weights, or copies to the host.
pub open spec fn is_note(op: Op) -> bool {
    match op {
        Op::Record { .. } => true,
        Op::PrefetchBegin => true,
        Op::PrefetchLayerBegin { .. } => true,
        Op::PrefetchReady { .. } => true,
        Op::PrefetchLayerEnd { .. } => true,
        Op::DumpEmbedding { .. } => true,
        Op::DumpMid { .. } => true,
        Op::DumpLayer { .. } => true,
        Op::DumpRouting { .. } => true,
        Op::DumpMoe { .. } => true,
        _ => false,
    }
}

/// The notes among the first `n` operations, in their order.
pub open spec fn notes_in(ops: Seq<Op>, n: nat) -> Seq<Op>
    decreases n,
{
    if n == 0 {
        Seq::empty()
    } else if is_note(ops[n - 1]) {
        notes_in(ops, (n - 1) as nat).push(ops[n - 1])
    } else {
        notes_in(ops, (n - 1) as nat)
    }
}

pub open spec fn notes(ops: Seq<Op>) -> Seq<Op> {
    notes_in(ops, ops.len())
}

proof fn lemma_notes_prefix(a: Seq<Op>, b: Seq<Op>, n: nat)
    requires
        n <= a.len(),
    ensures
        notes_in(a + b, n) == notes_in(a, n),
    decreases n,
{
    if n > 0 {
        lemma_notes_prefix(a, b, (n - 1) as nat);
        assert((a + b)[n - 1] == a[n - 1]);
    }
}

proof fn lemma_notes_rest(a: Seq<Op>, b: Seq<Op>, n: nat)
    requires
        n <= b.len(),
    ensures
        notes_in(a + b, a.len() + n) == notes(a) + notes_in(b, n),
    decreases n,
{
    if n == 0 {
        lemma_notes_prefix(a, b, a.len());
        assert(notes(a) + notes_in(b, 0) =~= notes(a));
    } else {
        lemma_notes_rest(a, b, (n - 1) as nat);
        assert((a + b)[a.len() + n - 1] == b[n - 1]);
        if is_note(b[n - 1]) {
            assert((notes(a) + notes_in(b, (n - 1) as nat)).push(b[n - 1]) =~= notes(a)
                + notes_in(b, n));
        }
    }
}

proof fn lemma_notes_both(a: Seq<Op>, b: Seq<Op>)
    ensures
        notes(a + b) == notes(a) + notes(b),
{
    lemma_notes_rest(a, b, b.len());
}

proof fn lemma_no_notes(ops: Seq<Op>, n: nat)
    requires
        n <= ops.len(),
        forall|i: int| 0 <= i < ops.len() ==> !is_note(#[trigger] ops[i]),
    ensures
        notes_in(ops, n) == Seq::<Op>::empty(),
    decreases n,
{
    if n > 0 {
        lemma_no_notes(ops, (n - 1) as nat);
    }
}

proof fn lemma_all_notes(ops: Seq<Op>, n: nat)
    requires
        n <= ops.len(),
        forall|i: int| 0 <= i < ops.len() ==> is_note(#[trigger] ops[i]),
    ensures
        notes_in(ops, n) =~= ops.take(n as int),
    decreases n,
{
    if n > 0 {
        lemma_all_notes(ops, (n - 1) as nat);
        assert(ops.take(n as int) =~= ops.take(n - 1).push(ops[n - 1]));
    }
}

proof fn lemma_are_notes(ops: Seq<Op>)
    requires
        forall|i: int| 0 <= i < ops.len() ==> is_note(#[trigger] ops[i]),
    ensures
        notes(ops) == ops,
{
    lemma_all_notes(ops, ops.len());
    assert(ops.take(ops.len() as int) =~= ops);
}

/// The note if `b` holds.
pub open spec fn noted(b: bool, op: Op) -> Seq<Op> {
    if b {
        Seq::empty().push(op)
    } else {
        Seq::empty()
    }
}

impl Step {
    /// The layer is noted by the profiler: one of the model's layers, while it profiles.
    pub open spec fn times(self, li: usize) -> bool {
        self.profile && li < self.cfg.n_layers
    }

    /// The layer routes rows to experts.
    pub open spec fn routes(self, l: LayerDev) -> bool {
        self.cfg.num_experts > 0 && self.cfg.num_experts_per_tok > 0 && l.has_router
    }

    /// What a layer's attention is noted with: the profiler's start before it, the fetch of the
    /// layer's experts beside it, and the profiler's middle and the stream's snapshot behind it.
    pub open spec fn first_notes(self, li: usize) -> Seq<Op> {
        noted(self.times(li), Op::Record { point: ProfPoint::LayerStart(li) }) + noted(
            self.prefetch,
            Op::PrefetchLayerBegin { layer: li },
        ) + noted(self.times(li), Op::Record { point: ProfPoint::AttnDone(li) }) + noted(
            self.layer_dump,
            Op::DumpMid { layer: li, rows: self.rows, d: self.cfg.d_model as i32 },
        )
    }

    /// What the second half is noted with, apart from the trace of one layer's experts: the wait
    /// for its experts, the stream's snapshot and the last row's routing, the profiler's end, and
    /// the release of its experts.
    pub open spec fn second_notes(self, li: usize, l: LayerDev, trace: Seq<Op>) -> Seq<Op> {
        noted(self.prefetch && self.routes(l), Op::PrefetchReady { layer: li }) + noted(
            self.layer_dump,
            Op::DumpLayer { layer: li, rows: self.rows, d: self.cfg.d_model as i32 },
        ) + noted(
            self.layer_dump && self.routes(l),
            Op::DumpRouting {
                layer: li,
                offset: if self.rows > 0 {
                    ((self.rows - 1) * self.choices()) as usize
                } else {
                    0
                },
                topk: self.choices() as usize,
            },
        ) + trace + noted(self.times(li), Op::Record { point: ProfPoint::MlpDone(li) }) + noted(
            self.prefetch,
            Op::PrefetchLayerEnd { layer: li },
        )
    }

    proof fn lemma_first_notes(self, li: usize, l: LayerDev, runs: Seq<Run>)
        ensures
            notes(self.first_half_ops(li, l, runs)) == self.first_notes(li),
    {
        let start = Op::Record { point: ProfPoint::LayerStart(li) };
        let fetch = Op::PrefetchLayerBegin { layer: li };
        let norm = self.layer_norm(
            Buf::X,
            li,
            Tensor::RmsAttn,
            Buf::Xn,
            self.cfg.d_model as int,
        );
        let done = Op::Record { point: ProfPoint::AttnDone(li) };
        let dump = Op::DumpMid { layer: li, rows: self.rows, d: self.spec_d() };
        let o1 = opt(self.profiled(li), start);
        let o2 = opt(self.prefetch, fetch);
        let o3 = seq![norm];
        let o4 = self.attention_ops(li, l, runs);
        let o5 = opt(self.profiled(li), done);
        let o6 = opt(self.layer_dump, dump);
        lemma_notes_both(o1 + o2 + o3 + o4 + o5, o6);
        lemma_notes_both(o1 + o2 + o3 + o4, o5);
        lemma_notes_both(o1 + o2 + o3, o4);
        lemma_notes_both(o1 + o2, o3);
        lemma_notes_both(o1, o2);
        lemma_are_notes(o1);
        lemma_are_notes(o2);
        lemma_are_notes(o5);
        lemma_are_notes(o6);
        lemma_no_notes(o3, 1);
        self.lemma_attention_notes(li, l, runs);
        assert(self.first_half_ops(li, l, runs) == o1 + o2 + o3 + o4 + o5 + o6);
        assert(notes(self.first_half_ops(li, l, runs)) =~= self.first_notes(li));
    }

    proof fn lemma_attention_notes(self, li: usize, l: LayerDev, runs: Seq<Run>)
        ensures
            notes(self.attention_ops(li, l, runs)) == Seq::<Op>::empty(),
    {
        let ops = self.attention_ops(li, l, runs);
        assert forall|i: int| 0 <= i < ops.len() implies !is_note(#[trigger] ops[i]) by {
            if self.cfg.kv_lora_rank > 0 {
                let (a, b) = (self.mla_project_ops(li), self.mla_attend_ops(li));
                if i < a.len() {
                    assert(ops[i] == a[i]);
                } else {
                    assert(ops[i] == b[i - a.len()]);
                }
            } else if !l.has_gdn {
                let (a, b, c, d) = (
                    self.qkv_ops(li, l),
                    self.rotate_ops(li, l),
                    self.attend_ops(li, runs),
                    self.attn_out_ops(li, l),
                );
                if i < a.len() {
                    assert(ops[i] == a[i]);
                } else if i < a.len() + b.len() {
                    assert(ops[i] == b[i - a.len()]);
                    self.lemma_rotate_notes(li, l, i - a.len());
                } else if i < a.len() + b.len() + c.len() {
                    let k = i - a.len() - b.len();
                    assert(ops[i] == c[k]);
                    if k >= 3 {
                        assert(c[k] == self.run_ops(li, runs)[k - 3]);
                    }
                } else {
                    assert(ops[i] == d[i - a.len() - b.len() - c.len()]);
                }
            }
        }
        lemma_no_notes(ops, ops.len());
    }

    proof fn lemma_rotate_notes(self, li: usize, l: LayerDev, i: int)
        requires
            0 <= i < self.rotate_ops(li, l).len(),
        ensures
            !is_note(self.rotate_ops(li, l)[i]),
    {
    }

    proof fn lemma_moe_notes(self, li: usize, l: LayerDev)
        requires
            self.fits(),
        ensures
            notes(self.moe_ops(li, l)) == noted(
                self.prefetch && self.spec_topk() > 0,
                Op::PrefetchReady { layer: li },
            ),
    {
        self.lemma_fits();
        let ops = self.moe_ops(li, l);
        if self.spec_topk() == 0 {
            lemma_no_notes(ops, ops.len());
        } else if self.offloaded() {
            lemma_no_notes(ops, ops.len());
        } else {
            let start = seq![ops[0], ops[1]];
            let ready = opt(self.prefetch, Op::PrefetchReady { layer: li });
            let experts = if self.grouped() {
                self.grouped_ops(li)
            } else {
                self.segmented_ops(li)
            };
            let shared = if l.has_shared {
                self.shared_ops(li)
            } else {
                Seq::empty()
            };
            let last = seq![self.add_residual(Buf::X, Buf::HAcc)];
            assert(ops =~= start + (ready + experts + shared + last));
            lemma_notes_both(start, ready + experts + shared + last);
            lemma_notes_both(ready + experts + shared, last);
            lemma_notes_both(ready + experts, shared);
            lemma_notes_both(ready, experts);
            lemma_no_notes(start, 2);
            lemma_are_notes(ready);
            lemma_no_notes(experts, experts.len());
            lemma_no_notes(shared, shared.len());
            lemma_no_notes(last, 1);
            assert(notes(ops) =~= ready);
        }
    }

    /// The snapshot of a layer's output, and that of the last row's routing.
    spec fn snapshots(self, li: usize, l: LayerDev) -> Seq<Op> {
        noted(
            self.layer_dump,
            Op::DumpLayer { layer: li, rows: self.rows, d: self.cfg.d_model as i32 },
        ) + noted(
            self.layer_dump && self.routes(l),
            Op::DumpRouting {
                layer: li,
                offset: if self.rows > 0 {
                    ((self.rows - 1) * self.choices()) as usize
                } else {
                    0
                },
                topk: self.choices() as usize,
            },
        )
    }

    proof fn lemma_trace(self, li: usize, l: LayerDev) -> (trace: Seq<Op>)
        ensures
            self.is_trace(li, l, trace),
            self.dump_ops(li, l) == self.snapshots(li, l) + trace,
    {
        let traced = self.layer_dump && li == 1 && self.routes(l) && self.grouped()
            && !self.offloaded();
        let trace = if traced {
            self.trace_ops(l)
        } else {
            Seq::empty()
        };
        assert(forall|j: int| 0 <= j < trace.len() ==> #[trigger] trace[j] is DumpMoe);
        let topk = self.spec_topk();
        assert(0 * topk == 0);
        assert(self.dump_ops(li, l) =~= self.snapshots(li, l) + trace);
        trace
    }

    proof fn lemma_second_notes(self, li: usize, l: LayerDev) -> (trace: Seq<Op>)
        requires
            self.fits(),
        ensures
            notes(self.second_half_ops(li, l)) == self.second_notes(li, l, trace),
            self.is_trace(li, l, trace),
    {
        self.lemma_fits();
        let norm = self.layer_norm(
            Buf::X,
            li,
            Tensor::RmsMlp,
            Buf::Xn2,
            self.cfg.d_model as int,
        );
        let done = Op::Record { point: ProfPoint::MlpDone(li) };
        let fetch = Op::PrefetchLayerEnd { layer: li };
        let o1 = seq![norm];
        let o2 = if self.is_moe(l) {
            self.moe_ops(li, l)
        } else {
            self.mlp_ops(li, l)
        };
        let o3 = self.dump_ops(li, l);
        let o4 = opt(self.profiled(li), done);
        let o5 = opt(self.prefetch, fetch);
        lemma_notes_both(o1 + o2 + o3 + o4, o5);
        lemma_notes_both(o1 + o2 + o3, o4);
        lemma_notes_both(o1 + o2, o3);
        lemma_notes_both(o1, o2);
        lemma_no_notes(o1, 1);
        let ready = noted(self.prefetch && self.routes(l), Op::PrefetchReady { layer: li });
        assert(notes(o2) == ready) by {
            if self.is_moe(l) {
                self.lemma_moe_notes(li, l);
            } else {
                lemma_no_notes(o2, o2.len());
            }
        }
        lemma_are_notes(o4);
        lemma_are_notes(o5);
        let trace = self.lemma_trace(li, l);
        let shots = self.snapshots(li, l);
        assert forall|i: int| 0 <= i < o3.len() implies is_note(#[trigger] o3[i]) by {
            if i < shots.len() {
                assert(o3[i] == shots[i]);
            } else {
                assert(o3[i] == trace[i - shots.len()]);
            }
        }
        lemma_are_notes(o3);
        assert(self.second_half_ops(li, l) == o1 + o2 + o3 + o4 + o5);
        let all = notes(self.second_half_ops(li, l));
        assert(all == notes(o1) + ready + (shots + trace) + o4 + o5);
        assert(all =~= self.second_notes(li, l, trace));
        trace
    }

    /// The trace is empty, or consists of copies of the expert intermediates of the one traced
    /// layer, in a step that keeps them in row order.
    pub open spec fn is_trace(self, li: usize, l: LayerDev, trace: Seq<Op>) -> bool {
        &&& forall|i: int| 0 <= i < trace.len() ==> #[trigger] trace[i] is DumpMoe
        &&& trace.len() > 0 <==> self.layer_dump && li == 1 && self.routes(l) && self.on_device()
            && (self.q4_experts || (self.moe_grouped && self.decode_only))
    }

    /// The notes of every layer stand in their order, and each layer's own.
    pub open spec fn layer_notes(self, li: usize, l: LayerDev, notes: Seq<Op>) -> bool {
        exists|trace: Seq<Op>|
            notes == self.first_notes(li) + #[trigger] self.second_notes(li, l, trace)
                && self.is_trace(li, l, trace)
    }

    /// What each layer notes: its start, its middle and its end for the profiler, the fetch, the
    /// wait and the release of its experts, and its snapshots, each only where asked for.
    pub proof fn lemma_layer_notes(self, li: usize, l: LayerDev, runs: Seq<Run>)
        requires
            self.fits(),
        ensures
            self.layer_notes(li, l, notes(self.layer_ops(li, l, runs))),
    {
        self.lemma_first_notes(li, l, runs);
        let trace = self.lemma_second_notes(li, l);
        let (a, b) = (self.first_half_ops(li, l, runs), self.second_half_ops(li, l));
        lemma_notes_both(a, b);
        assert(notes(a + b) == self.first_notes(li) + self.second_notes(li, l, trace));
    }

    /// What a step notes before and after its layers.
    pub proof fn lemma_step_notes(self)
        ensures
            notes(self.head_ops()) == noted(
                self.layer_dump,
                Op::DumpEmbedding { rows: self.rows, d: self.cfg.d_model as i32 },
            ) + noted(self.profile, Op::Record { point: ProfPoint::StepStart }) + noted(
                self.prefetch,
                Op::PrefetchBegin,
            ),
            notes(self.tail_ops()) == noted(
                self.profile,
                Op::Record { point: ProfPoint::StepEnd },
            ),
    {
        let head = self.head_ops();
        let o1 = seq![head[0]];
        let o2 = opt(
            self.layer_dump,
            Op::DumpEmbedding { rows: self.rows, d: self.spec_d() },
        );
        let o3 = opt(self.profile, Op::Record { point: ProfPoint::StepStart });
        let o4 = opt(self.prefetch, Op::PrefetchBegin);
        assert(head =~= o1 + o2 + o3 + o4);
        lemma_notes_both(o1 + o2 + o3, o4);
        lemma_notes_both(o1 + o2, o3);
        lemma_notes_both(o1, o2);
        lemma_no_notes(o1, 1);
        lemma_are_notes(o2);
        lemma_are_notes(o3);
        lemma_are_notes(o4);
        assert(notes(head) =~= o2 + o3 + o4);
        let tail = self.tail_ops();
        let t1 = seq![tail[0], tail[1]];
        let t2 = opt(self.profile, Op::Record { point: ProfPoint::StepEnd });
        assert(tail =~= t1 + t2);
        lemma_notes_both(t1, t2);
        lemma_no_notes(t1, 2);
        lemma_are_notes(t2);
        assert(notes(tail) =~= t2);
    }

    /// How a projection is computed: from the packed form where there is no other; by the library
    /// in single precision; and in half precision by the row kernel for up to eight rows whose
    /// inputs it can stage, else by the library.
    pub proof fn lemma_projection_path(self, q4: bool, k: int)
        ensures
            ({
                let path = self.gemm_path(q4, k);
                let few = self.rows <= 8 && k <= 12288;
                &&& path == GemmPath::GemvQ4 <==> q4
                &&& path == GemmPath::BatchedF32 <==> !q4 && !self.spec_half()
                &&& path == GemmPath::GemvF16 <==> !q4 && self.spec_half() && few
                &&& path == GemmPath::BatchedF16 <==> !q4 && self.spec_half() && !few
            }),
    {
    }

    /// Queries, keys and values are projected together exactly where the row kernel serves the
    /// step from half-precision weights.
    pub proof fn lemma_joint_projection(self, l: LayerDev)
        ensures
            self.fused_qkv(l) <==> self.spec_half() && self.rows <= 8 && self.cfg.d_model <= 12288
                && !l.q4_wq,
    {
    }

    /// The buffer that a traced intermediate stands in, and the numbers of one row of it.
    pub open spec fn traced(self, label: MoeTrace) -> (Buf, int) {
        let d = self.cfg.d_model as int;
        let experts = self.choices() * self.expert_width();
        let shared = self.cfg.n_shared_experts * self.expert_width();
        match label {
            MoeTrace::Router => (Buf::Router, self.cfg.num_experts as int),
            MoeTrace::Xn2 => (Buf::Xn2, d),
            MoeTrace::GateAll => (Buf::GateAll, experts),
            MoeTrace::UpAll => (Buf::UpAll, experts),
            MoeTrace::EhAll => (Buf::EhAll, experts),
            MoeTrace::DownAll => (Buf::DownAll, self.choices() * d),
            MoeTrace::HAcc => (Buf::HAcc, d),
            MoeTrace::SharedGate => (Buf::Gate, shared),
            MoeTrace::SharedUp => (Buf::Up, shared),
            MoeTrace::SharedH => (Buf::H, shared),
            MoeTrace::SharedProj => (Buf::Proj, d),
        }
    }

    /// A trace copies each intermediate of the last row from its own buffer, the routed ones always
    /// and those of the shared experts where the layer has them.
    pub proof fn lemma_traced(self, l: LayerDev)
        ensures
            ({
                let t = self.trace_ops(l);
                let last = if self.rows > 0 {
                    self.rows - 1
                } else {
                    0
                };
                &&& t.len() == if l.has_shared {
                    11int
                } else {
                    7int
                }
                &&& forall|i: int|
                    0 <= i < t.len() ==> (#[trigger] t[i] matches Op::DumpMoe {
                        label,
                        buf,
                        offset,
                        len,
                    } && {
                        let (from, width) = self.traced(label);
                        buf == from && offset == (last * width) as usize && len == width as usize
                    })
                &&& forall|i: int, j: int|
                    0 <= i < j < t.len() ==> (#[trigger] t[i])->label != (#[trigger] t[j])->label
            }),
    {
    }

    /// Experts are computed together exactly in decode steps of models set to do so, and always
    /// where they are packed; on the CPU exactly where they neither fit the device nor are
    /// fetched to it. Their weights are read in the model's precision, fetched ones where they
    /// were fetched to.
    pub proof fn lemma_expert_path(self)
        ensures
            self.grouped() <==> self.q4_experts || (self.moe_grouped && self.decode_only),
            self.offloaded() <==> !self.on_device(),
            self.expert_source() == ExpertSource::F16 <==> self.spec_half(),
            self.expert_source() == ExpertSource::Prefetched <==> !self.spec_half()
                && self.prefetch,
            self.expert_source() == ExpertSource::Resident <==> !self.spec_half()
                && !self.prefetch,
    {
    }
}

} // verus!
