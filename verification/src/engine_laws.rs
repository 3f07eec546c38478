//! Laws of the continuous-batching engine.

use vstd::prelude::*;

use crate::batched::first_at_least;
use crate::batched_laws::anchor_sizes;
use crate::batched_laws::lemma_saved_anchor_restores;
use crate::continuous::Source;
use crate::engine_model::lemma_row_starts;
use crate::engine_model::lemma_spans;
use crate::engine_model::marked;
use crate::engine_model::rows_before;
use crate::engine_model::EngineView;
use crate::engine_model::RowView;
use crate::sequence::SampleView;
use crate::sequence::SeqView;

verus! {

/// The state after the sequences in `slots` finished, one after the other.
pub open spec fn finish_all(v: EngineView, slots: Seq<usize>) -> EngineView
    decreases slots.len(),
{
    if slots.len() == 0 {
        v
    } else {
        finish_all(v.without(slots[0] as int), slots.skip(1))
    }
}

/// The sequences below `n` that `done` does not mark, in order.
pub open spec fn unmarked(seqs: Seq<SeqView>, done: Seq<bool>, n: nat) -> Seq<SeqView>
    decreases n,
{
    if n == 0 {
        Seq::empty()
    } else if done[n - 1] {
        unmarked(seqs, done, (n - 1) as nat)
    } else {
        unmarked(seqs, done, (n - 1) as nat).push(seqs[n - 1])
    }
}

/// Finishing the marked slots, highest first, ends exactly those sequences: the others stay, in
/// their order, and every marked one is among the finished.
pub proof fn lemma_finish_all(v: EngineView, done: Seq<bool>)
    requires
        v.wf(),
        done.len() == v.seqs.len(),
    ensures
        ({
            let w = finish_all(v, marked(done, v.seqs.len()));
            &&& w.wf()
            &&& w.seqs == unmarked(v.seqs, done, v.seqs.len())
            &&& forall|i: int|
                0 <= i < v.seqs.len() && done[i] ==> w.finished.contains(
                    (#[trigger] v.seqs[i]).result(),
                )
            &&& forall|f: crate::engine_model::FinishedView|
                v.finished.contains(f) ==> w.finished.contains(f)
        }),
{
    lemma_finish_from(v, v.seqs, done, v.seqs.len());
    assert(v.seqs.skip(v.seqs.len() as int) =~= Seq::empty());
    assert(v.seqs.take(v.seqs.len() as int) + Seq::<SeqView>::empty() =~= v.seqs);
    assert(unmarked(v.seqs, done, v.seqs.len()) + Seq::<SeqView>::empty() =~= unmarked(
        v.seqs,
        done,
        v.seqs.len(),
    ));
}

/// With the slots from `n` on already settled as `rest`, finishing the marked slots below `n`
/// leaves the unmarked ones and `rest`.
proof fn lemma_finish_from(v: EngineView, seqs: Seq<SeqView>, done: Seq<bool>, n: nat)
    requires
        v.wf(),
        n <= done.len() == seqs.len(),
        n <= v.seqs.len(),
        v.seqs.take(n as int) == seqs.take(n as int),
    ensures
        ({
            let w = finish_all(v, marked(done, n));
            &&& w.wf()
            &&& w.seqs == unmarked(seqs, done, n) + v.seqs.skip(n as int)
            &&& forall|i: int|
                0 <= i < n && done[i] ==> w.finished.contains((#[trigger] seqs[i]).result())
            &&& forall|f: crate::engine_model::FinishedView|
                v.finished.contains(f) ==> w.finished.contains(f)
        }),
    decreases n,
{
    if n == 0 {
        assert(v.seqs.skip(0) =~= v.seqs);
        assert(unmarked(seqs, done, 0) + v.seqs =~= v.seqs);
    } else {
        let last = (n - 1) as int;
        assert(v.seqs[last] == v.seqs.take(n as int)[last]);
        assert(seqs[last] == seqs.take(n as int)[last]);
        assert(v.seqs.take(last) =~= v.seqs.take(n as int).take(last));
        assert(seqs.take(last) =~= seqs.take(n as int).take(last));
        if done[last] {
            let u = v.without(last);
            crate::engine_model::lemma_without_wf(v, last);
            assert(u.seqs.take(last) =~= v.seqs.take(last));
            lemma_finish_from(u, seqs, done, last as nat);
            let m = marked(done, n);
            assert(m.skip(1) =~= marked(done, last as nat));
            assert(u.seqs.skip(last) =~= v.seqs.skip(n as int));
            let w = finish_all(v, m);
            assert(u.finished[v.finished.len() as int] == seqs[last].result());
            assert(u.finished.contains(seqs[last].result()));
            assert forall|f: crate::engine_model::FinishedView|
                v.finished.contains(f) implies w.finished.contains(f) by {
                let k = choose|k: int| 0 <= k < v.finished.len() && v.finished[k] == f;
                assert(u.finished[k] == f);
                assert(u.finished.contains(f));
            }
        } else {
            lemma_finish_from(v, seqs, done, last as nat);
            assert(unmarked(seqs, done, last as nat) + v.seqs.skip(last) =~= unmarked(
                seqs,
                done,
                n,
            ) + v.seqs.skip(n as int));
        }
    }
}

/// No sequence is complete or full: each still has something to do.
pub open spec fn settled(v: EngineView) -> bool {
    forall|i: int| 0 <= i < v.seqs.len() ==> unfinished(#[trigger] v.seqs[i], v.max_seq())
}

/// A sequence that the engine goes on with.
pub open spec fn unfinished(s: SeqView, max_seq: int) -> bool {
    &&& s.generated.len() > 0 ==> !s.complete()
    &&& !s.full(max_seq)
}

/// A step whose finished sequences left leaves only sequences that still have something to do:
/// none has reached its end token, a stop sequence, its token limit or the end of the context.
pub proof fn lemma_step_settles(v: EngineView, samples: Seq<SampleView>)
    requires
        v.wf(),
        settled(v),
    ensures
        settled(
            finish_all(v.stepped(samples), marked(v.done_flags(samples), v.seqs.len())),
        ),
{
    let s = v.stepped(samples);
    let done = v.done_flags(samples);
    crate::continuous::lemma_stepped_wf(v, samples);
    lemma_finish_all(s, done);
    lemma_max_seq_kept(s, marked(done, v.seqs.len()));
    assert forall|i: int| 0 <= i < s.seqs.len() && !done[i] implies unfinished(
        #[trigger] s.seqs[i],
        v.max_seq(),
    ) by {
        lemma_spans(v, i);
        assert(unfinished(v.seqs[i], v.max_seq()));
        assert(s.seqs[i] == v.advanced(samples, i));
        assert(v.seqs[i].wf(v.max_seq()));
    }
    lemma_unmarked_all(s.seqs, done, s.seqs.len(), v.max_seq());
}

proof fn lemma_max_seq_kept(v: EngineView, slots: Seq<usize>)
    ensures
        finish_all(v, slots).max_seq() == v.max_seq(),
    decreases slots.len(),
{
    if slots.len() > 0 {
        if let Some(p) = v.paged {
            lemma_shift_keeps_cfg(v.model, p.tables, slots[0] as int, p.tables.len() as int);
        }
        lemma_max_seq_kept(v.without(slots[0] as int), slots.skip(1));
    }
}

proof fn lemma_shift_keeps_cfg(
    m: crate::batched::ModelView,
    tables: Seq<Seq<u32>>,
    slot: int,
    n: int,
)
    ensures
        crate::engine_model::shifted(m, tables, slot, n).cfg == m.cfg,
    decreases n,
{
    if n > slot + 1 && n > 0 {
        lemma_shift_keeps_cfg(m, tables, slot, n - 1);
    }
}

proof fn lemma_unmarked_all(seqs: Seq<SeqView>, done: Seq<bool>, n: nat, max_seq: int)
    requires
        n <= seqs.len() == done.len(),
        forall|i: int|
            0 <= i < n && !done[i] ==> unfinished(#[trigger] seqs[i], max_seq),
    ensures
        forall|j: int|
            0 <= j < unmarked(seqs, done, n).len() ==> unfinished(
                #[trigger] unmarked(seqs, done, n)[j],
                max_seq,
            ),
    decreases n,
{
    if n > 0 {
        lemma_unmarked_all(seqs, done, (n - 1) as nat, max_seq);
        let rest = unmarked(seqs, done, (n - 1) as nat);
        let all = unmarked(seqs, done, n);
        assert forall|j: int| 0 <= j < all.len() implies unfinished(
            #[trigger] all[j],
            max_seq,
        ) by {
            if j < rest.len() {
                assert(all[j] == rest[j]);
            } else {
                assert(unfinished(seqs[n - 1], max_seq));
            }
        }
    }
}

/// A sequence never generates past its limit: of a sequence that still had something to do, a
/// step leaves at most `max_new` tokens, or the one token that completes its prompt.
pub proof fn lemma_token_limit(v: EngineView, samples: Seq<SampleView>, i: int)
    requires
        v.wf(),
        settled(v),
        0 <= i < v.seqs.len(),
    ensures
        v.advanced(samples, i).generated.len() <= vstd::math::max(
            v.seqs[i].max_new as int,
            1,
        ),
{
    lemma_spans(v, i);
    assert(v.seqs[i].wf(v.max_seq()));
    assert(unfinished(v.seqs[i], v.max_seq()));
}

/// Every step makes progress: if there is a sequence, the step has a row.
pub proof fn lemma_progress(v: EngineView)
    requires
        v.wf(),
        settled(v),
        v.seqs.len() > 0,
    ensures
        v.rows().len() > 0,
{
    assert(unfinished(v.seqs[0], v.max_seq()));
    lemma_spans(v, 0);
}

/// A sequence that gets a row moves on by as many positions as it got rows.
pub proof fn lemma_positions_advance(v: EngineView, samples: Seq<SampleView>, i: int)
    requires
        v.wf(),
        0 <= i < v.seqs.len(),
    ensures
        v.advanced(samples, i).len == v.seqs[i].len + v.rows_of(i),
{
    lemma_spans(v, i);
    assert(v.seqs[i].wf(v.max_seq()));
}

/// Every row of a step belongs to one sequence: it carries that sequence's slot and the
/// position behind what the sequence has consumed.
pub proof fn lemma_row(v: EngineView, i: int, j: int)
    requires
        v.wf(),
        0 <= i < v.seqs.len(),
        0 <= j < v.rows_of(i),
    ensures
        v.rows()[v.row_start(i) + j] == v.seqs[i].row(i, j),
        v.rows()[v.row_start(i) + j].pos == v.seqs[i].len + j,
        v.rows()[v.row_start(i) + j].pos < v.max_seq(),
        v.rows()[v.row_start(i) + j].slot == i,
{
    lemma_spans(v, i);
    lemma_rows_prefix(v.seqs, v.prefill_rows as int, v.max_seq(), (i + 1) as nat, v.seqs.len());
    let upto = rows_before(v.seqs, v.prefill_rows as int, v.max_seq(), (i + 1) as nat);
    assert(upto[v.row_start(i) + j] == v.seqs[i].row(i, j));
    assert(v.seqs[i].wf(v.max_seq()));
}

proof fn lemma_rows_prefix(seqs: Seq<SeqView>, budget: int, max_seq: int, i: nat, n: nat)
    requires
        i <= n,
        0 <= budget,
    ensures
        ({
            let a = rows_before(seqs, budget, max_seq, i);
            let b = rows_before(seqs, budget, max_seq, n);
            a.len() <= b.len() && forall|k: int| 0 <= k < a.len() ==> #[trigger] b[k] == a[k]
        }),
    decreases n,
{
    if i < n {
        lemma_rows_prefix(seqs, budget, max_seq, i, (n - 1) as nat);
    }
}

/// A step is never refused, except where linear attention meets two rows of one sequence: all
/// positions lie in the context, and all slots in the batch.
pub proof fn lemma_step_accepted(v: EngineView)
    requires
        v.wf(),
    ensures
        ({
            let pos = v.rows().map_values(|r: RowView| r.pos);
            let slots = v.rows().map_values(|r: RowView| r.slot);
            let refused = v.model.rows_error(pos, slots);
            &&& refused is None || refused->0 is DuplicateSlot
            &&& !v.model.gdn() ==> refused is None
        }),
{
    let pos = v.rows().map_values(|r: RowView| r.pos);
    let slots = v.rows().map_values(|r: RowView| r.slot);
    lemma_rows_in_range(v, v.seqs.len());
    lemma_all_below(pos, v.max_seq(), 0);
    lemma_all_below(slots, v.capacity as int, 0);
}

proof fn lemma_rows_in_range(v: EngineView, n: nat)
    requires
        v.wf(),
        n <= v.seqs.len(),
    ensures
        forall|k: int|
            0 <= k < rows_before(v.seqs, v.prefill_rows as int, v.max_seq(), n).len() ==> {
                let r = #[trigger] rows_before(
                    v.seqs,
                    v.prefill_rows as int,
                    v.max_seq(),
                    n,
                )[k];
                r.pos < v.max_seq() && r.slot < v.capacity
            },
    decreases n,
{
    if n > 0 {
        lemma_rows_in_range(v, (n - 1) as nat);
        lemma_spans(v, n - 1);
        assert(v.seqs[n - 1].wf(v.max_seq()));
        let before = rows_before(v.seqs, v.prefill_rows as int, v.max_seq(), (n - 1) as nat);
        let rows = rows_before(v.seqs, v.prefill_rows as int, v.max_seq(), n);
        assert forall|k: int| 0 <= k < rows.len() implies ({
            let r = #[trigger] rows[k];
            r.pos < v.max_seq() && r.slot < v.capacity
        }) by {
            if k < before.len() {
                assert(rows[k] == before[k]);
            } else {
                assert(rows[k] == v.seqs[n - 1].row(n - 1, k - before.len()));
            }
        }
    }
}

proof fn lemma_all_below(xs: Seq<u32>, limit: int, i: nat)
    requires
        forall|k: int| 0 <= k < xs.len() ==> (#[trigger] xs[k]) < limit,
    ensures
        first_at_least(xs, limit, i) is None,
    decreases xs.len() - i,
{
    if i < xs.len() {
        lemma_all_below(xs, limit, i + 1);
    }
}

/// The anchor of a finished sequence serves a later prompt that goes on behind its tokens: it is
/// accepted, in whatever slot is free, and the new sequence computes only what follows.
pub proof fn lemma_anchor_serves(v: EngineView, slot: usize, prompt: Seq<u32>, source: Source)
    requires
        v.wf(),
        slot < v.seqs.len(),
        v.leaves_anchor(slot as int),
        v.seqs[slot as int].len < prompt.len() <= v.max_seq(),
        source matches Source::Anchor { prefix_len, token_idx, kv_sizes, .. } && {
            let s = v.seqs[slot as int];
            &&& prefix_len == s.len
            &&& token_idx == s.len - 1
            &&& kv_sizes@ == anchor_sizes(
                v.model.kv_prefix(slot, s.len as int),
                v.model.cfg.n_layers as nat,
            )
        },
    ensures
        ({
            let s = v.seqs[slot as int];
            let w = v.without(slot as int);
            &&& w.admission_error(prompt) is None
            &&& w.source_fits(source, prompt)
            &&& w.source_error(source) is None
            &&& w.reused(prompt, source) == s.len
        }),
{
    let s = v.seqs[slot as int];
    assert(s.wf(v.max_seq()));
    let w = v.without(slot as int);
    let free = w.seqs.len() as usize;
    lemma_saved_anchor_restores(v.model, slot, free, (s.len - 1) as usize);
}

/// A paged request never reads an unwritten page: what it does not compute, a request whose
/// prefill is complete has computed.
pub proof fn lemma_reuse_is_materialized(v: EngineView, prompt: Seq<u32>)
    requires
        v.wf(),
        v.paged is Some,
        prompt.len() > 0,
    ensures
        ({
            let p = v.paged->0;
            let r = p.boundary(prompt);
            &&& 0 <= r < prompt.len()
            &&& r > 0 ==> exists|i: int|
                #![trigger p.owners()[i]]
                0 <= i < p.owners().len() && p.owners()[i].registered && r
                    <= p.owners()[i].prefix.len() && p.owners()[i].prefix.take(r)
                    == prompt.take(r)
        }),
{
    let p = v.paged->0;
    let page = p.tokens_per_page as int;
    let best = p.reusable(prompt);
    let r = p.boundary(prompt);
    crate::page_reuse::lemma_reuse_is_longest(p.owners(), prompt, page);
    if best > 0 {
        let i = choose|i: int|
            #![trigger p.owners()[i]]
            0 <= i < p.owners().len() && p.owners()[i].registered && best
                <= p.owners()[i].prefix.len() && p.owners()[i].prefix.take(best) == prompt.take(
                best,
            );
        let e = p.owners()[i];
        if best == prompt.len() {
            vstd::arithmetic::div_mod::lemma_fundamental_div_mod(best, page);
            let q = best / page;
            assert(q >= 1) by (nonlinear_arith)
                requires
                    page * q == best,
                    best > 0,
                    page > 0,
            ;
            assert(page <= best) by (nonlinear_arith)
                requires
                    page * q == best,
                    q >= 1,
                    page > 0,
            ;
        }
        assert(e.prefix.take(r) =~= e.prefix.take(best).take(r));
        assert(prompt.take(r) =~= prompt.take(best).take(r));
    }
}

} // verus!
