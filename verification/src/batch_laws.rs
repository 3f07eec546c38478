//! Which rows a step of the continuous-batching engine runs, and what comes of them.

use vstd::prelude::*;

use crate::config::F32Bits;
use crate::continuous::Source;
use crate::engine_laws::lemma_row;
use crate::engine_model::lemma_spans;
use crate::engine_model::EngineError;
use crate::engine_model::EngineView;
use crate::page_reuse::lemma_reuse_is_longest;
use crate::page_reuse::owned;
use crate::page_reuse::EntryView;
use crate::page_reuse::PagedView;
use crate::sequence::lemma_tally;
use crate::sequence::occurrences;
use crate::sequence::SampleView;
use crate::sequence::SeqId;
use crate::sequence::SeqView;

verus! {

/// Every row feeds its sequence's token at the row's position, with the sequence's seed and
/// bias. A prompt row is penalized for nothing, a decode row for every token that the sequence
/// generated as often as it did.
pub proof fn lemma_row_feeds(v: EngineView, i: int, j: int)
    requires
        v.wf(),
        0 <= i < v.seqs.len(),
        0 <= j < v.rows_of(i),
    ensures
        ({
            let s = v.seqs[i];
            let r = v.rows()[v.row_start(i) + j];
            &&& r.pos == s.len + j
            &&& r.pos < s.all_tokens.len()
            &&& r.token == s.all_tokens[r.pos as int]
            &&& r.slot == i
            &&& r.seed == s.seed
            &&& r.bias == s.logit_bias
            &&& s.prompt.len() > 0 ==> r.counts.len() == 0
            &&& s.prompt.len() == 0 ==> {
                &&& forall|k: int|
                    0 <= k < r.counts.len() ==> (#[trigger] r.counts[k]).1 == occurrences(
                        s.generated,
                        r.counts[k].0,
                    ) && r.counts[k].1 > 0
                &&& forall|a: int, b: int|
                    0 <= a < b < r.counts.len() ==> (#[trigger] r.counts[a]).0 != (
                    #[trigger] r.counts[b]).0
                &&& forall|t: u32|
                    #[trigger] occurrences(s.generated, t) > 0 ==> exists|k: int|
                        0 <= k < r.counts.len() && (#[trigger] r.counts[k]).0 == t
            }
        }),
{
    lemma_row(v, i, j);
    lemma_spans(v, i);
    let s = v.seqs[i];
    assert(s.wf(v.max_seq()));
    if s.prompt.len() > 0 {
        assert(s.prompt[j] == s.all_tokens[s.len + j]);
    } else {
        assert(s.generated.last() == s.all_tokens[s.len as int]);
        lemma_tally(s.generated);
        let r = v.rows()[v.row_start(i) + j];
        assert forall|t: u32| #[trigger] occurrences(s.generated, t) > 0 implies exists|k: int|
            0 <= k < r.counts.len() && (#[trigger] r.counts[k]).0 == t by {
            lemma_listed(r.counts, t);
        }
    }
}

proof fn lemma_listed(counts: Seq<(u32, u32)>, t: u32)
    requires
        crate::sequence::find_token(counts, t) < counts.len(),
    ensures
        exists|k: int| 0 <= k < counts.len() && (#[trigger] counts[k]).0 == t,
    decreases counts.len(),
{
    if counts.len() > 0 {
        let front = counts.drop_last();
        if crate::sequence::find_token(front, t) < front.len() {
            lemma_listed(front, t);
            let k = choose|k: int| 0 <= k < front.len() && (#[trigger] front[k]).0 == t;
            assert(counts[k].0 == t);
        } else {
            assert(counts[counts.len() - 1].0 == t);
        }
    }
}

/// Rows that a sequence can use in one step: its whole prompt, or one row while its context has
/// room.
pub open spec fn usable(s: SeqView, max_seq: int) -> int {
    if s.prompt.len() > 0 {
        s.prompt.len() as int
    } else if s.len < max_seq {
        1
    } else {
        0
    }
}

/// Rows go to the sequences in their order: each gets all it can use until the step is full, and
/// a sequence gets fewer only if it takes the last row.
pub proof fn lemma_rows_shared(v: EngineView, i: int)
    requires
        v.wf(),
        0 <= i < v.seqs.len(),
    ensures
        0 <= v.rows_of(i) <= usable(v.seqs[i], v.max_seq()),
        v.rows_of(i) < usable(v.seqs[i], v.max_seq()) ==> v.row_start(i) + v.rows_of(i)
            == v.prefill_rows,
        v.row_start(0) == 0,
        v.row_start(i) + v.rows_of(i) == v.row_start(i + 1),
        v.row_start(v.seqs.len() as int) == v.rows().len() <= v.prefill_rows,
{
    lemma_spans(v, i);
    lemma_spans(v, 0);
}

/// A step leaves a row unused only if every sequence has all the rows it can use.
pub proof fn lemma_no_row_wasted(v: EngineView)
    requires
        v.wf(),
        v.rows().len() < v.prefill_rows,
    ensures
        forall|i: int|
            0 <= i < v.seqs.len() ==> v.rows_of(i) == usable(
                #[trigger] v.seqs[i],
                v.max_seq(),
            ),
{
    assert forall|i: int| 0 <= i < v.seqs.len() implies v.rows_of(i) == usable(
        #[trigger] v.seqs[i],
        v.max_seq(),
    ) by {
        lemma_rows_shared(v, i);
        lemma_spans(v, i);
    }
}

/// Sequence `i` has one token more after the step.
pub open spec fn grows(v: EngineView, samples: Seq<SampleView>, i: int) -> bool {
    v.stepped(samples).seqs[i].generated.len() > v.seqs[i].generated.len()
}

/// A sequence gets a token exactly if the step leaves nothing of its prompt and gave it a row,
/// and the token is what was sampled at the last of its rows.
pub proof fn lemma_token_from_last_row(v: EngineView, samples: Seq<SampleView>, i: int)
    requires
        v.wf(),
        0 <= i < v.seqs.len(),
    ensures
        grows(v, samples, i) <==> v.rows_of(i) > 0 && v.stepped(samples).seqs[i].prompt.len() == 0,
        grows(v, samples, i) ==> {
            let a = v.stepped(samples).seqs[i];
            let s = samples[v.row_start(i) + v.rows_of(i) - 1];
            &&& a.generated == v.seqs[i].generated.push(s.token)
            &&& a.logprobs == v.seqs[i].logprobs.push(s.logprob)
            &&& a.top_logprobs == v.seqs[i].top_logprobs.push(s.top)
            &&& a.seed == s.seed
        },
        v.rows_of(i) == 0 ==> v.stepped(samples).seqs[i] == v.seqs[i],
{
    lemma_spans(v, i);
    assert(v.seqs[i].wf(v.max_seq()));
}

/// What sequence `i` hands out.
pub open spec fn handed(v: EngineView, samples: Seq<SampleView>, i: int) -> (SeqId, u32) {
    (v.seqs[i].id, v.stepped(samples).seqs[i].generated.last())
}

pub open spec fn handed_by_some(
    v: EngineView,
    samples: Seq<SampleView>,
    n: nat,
    out: (SeqId, u32),
) -> bool {
    exists|i: int| 0 <= i < n && grows(v, samples, i) && out == #[trigger] handed(v, samples, i)
}

/// The step hands out the new token of every sequence that got one, under that sequence's id, and
/// nothing else, each once.
pub proof fn lemma_outputs(v: EngineView, samples: Seq<SampleView>, n: nat)
    requires
        v.wf(),
        n <= v.seqs.len(),
    ensures
        ({
            let out = v.outputs(samples, n);
            &&& forall|k: int|
                0 <= k < out.len() ==> handed_by_some(v, samples, n, #[trigger] out[k])
            &&& forall|i: int|
                0 <= i < n && grows(v, samples, i) ==> out.contains(
                    #[trigger] handed(v, samples, i),
                )
            &&& out.no_duplicates()
        }),
    decreases n,
{
    if n > 0 {
        let m = (n - 1) as nat;
        lemma_outputs(v, samples, m);
        lemma_token_from_last_row(v, samples, n - 1);
        lemma_spans(v, n - 1);
        let before = v.outputs(samples, m);
        let out = v.outputs(samples, n);
        let it = handed(v, samples, n - 1);
        assert forall|k: int| 0 <= k < before.len() implies before[k].0 != it.0 && handed_by_some(
            v,
            samples,
            n,
            #[trigger] before[k],
        ) by {
            assert(handed_by_some(v, samples, m, before[k]));
            let i = choose|i: int|
                0 <= i < m && grows(v, samples, i) && before[k] == #[trigger] handed(
                    v,
                    samples,
                    i,
                );
            assert(v.seqs[i].id != v.seqs[n - 1].id);
            assert(before[k] == handed(v, samples, i));
        }
        if grows(v, samples, n - 1) {
            assert(out == before.push(it));
            assert(out[before.len() as int] == it);
        }
        assert forall|i: int| 0 <= i < n && grows(v, samples, i) implies out.contains(
            #[trigger] handed(v, samples, i),
        ) by {
            if i < m {
                assert(before.contains(handed(v, samples, i)));
                let k = choose|k: int|
                    0 <= k < before.len() && before[k] == handed(v, samples, i);
                assert(out[k] == handed(v, samples, i));
            }
        }
    }
}

/// In paged mode exactly the slots whose prompt the step completes are to be registered, and
/// exactly their entries may be reused afterwards beside those that could before.
pub proof fn lemma_materialized(v: EngineView, samples: Seq<SampleView>, n: nat)
    requires
        v.wf(),
        v.paged is Some,
        n <= v.seqs.len(),
    ensures
        ({
            let slots = v.materialized(n);
            let p = v.paged->0;
            let q = v.stepped(samples).paged->0;
            &&& forall|k: int| 0 <= k < slots.len() ==> (#[trigger] slots[k]) < n
            &&& forall|i: int|
                #![trigger v.seqs[i]]
                0 <= i < n ==> {
                    &&& slots.contains(i as usize) <==> v.seqs[i].prompt.len() > 0
                        && v.stepped(samples).seqs[i].prompt.len() == 0
                    &&& q.entries[i].registered <==> p.entries[i].registered || slots.contains(
                        i as usize,
                    )
                    &&& q.entries[i].prefix == p.entries[i].prefix
                    &&& q.entries[i].chain == p.entries[i].chain
                }
        }),
    decreases n,
{
    if n > 0 {
        let m = (n - 1) as nat;
        lemma_materialized(v, samples, m);
        lemma_token_from_last_row(v, samples, n - 1);
        lemma_spans(v, n - 1);
        assert(v.seqs[n - 1].wf(v.max_seq()));
        let before = v.materialized(m);
        let slots = v.materialized(n);
        let it = (n - 1) as usize;
        if v.prefilled(n - 1) {
            assert(slots == before.push(it));
            assert(slots[before.len() as int] == it);
        }
        let p = v.paged->0;
        let q = v.stepped(samples).paged->0;
        assert forall|i: int| #![trigger v.seqs[i]] 0 <= i < n implies {
            &&& slots.contains(i as usize) <==> v.seqs[i].prompt.len() > 0 && v.stepped(
                samples,
            ).seqs[i].prompt.len() == 0
            &&& q.entries[i].registered <==> p.entries[i].registered || slots.contains(i as usize)
            &&& q.entries[i].prefix == p.entries[i].prefix
            &&& q.entries[i].chain == p.entries[i].chain
        } by {
            if i < m {
                assert(slots.contains(i as usize) <==> before.contains(i as usize)) by {
                    if before.contains(i as usize) {
                        let k = choose|k: int| 0 <= k < before.len() && before[k] == i as usize;
                        assert(slots[k] == i as usize);
                    }
                }
                assert(v.seqs[i].prompt.len() > 0 || v.seqs[i].prompt.len() == 0);
            }
        }
    }
}

/// A sequence that joins asks for exactly what its request asks for: it has a new id and the
/// whole prompt as its tokens, its queue is what is left to compute of the prompt, it has
/// generated nothing, and it draws from the given seed, or from its own id where none is given.
pub proof fn lemma_joins(
    v: EngineView,
    prompt: Seq<u32>,
    max_new: usize,
    eos: Option<u32>,
    stop_seqs: Seq<Seq<u32>>,
    logit_bias: Seq<(u32, F32Bits)>,
    seed: u64,
    source: Source,
)
    requires
        v.wf(),
        v.next_id < u64::MAX,
        0 <= v.reused(prompt, source) < prompt.len() <= v.max_seq(),
    ensures
        ({
            let s = v.new_seq(prompt, max_new, eos, stop_seqs, logit_bias, seed, source);
            let w = v.added(s, prompt, source);
            &&& w.seqs.len() == v.seqs.len() + 1
            &&& w.seqs.last() == s
            &&& forall|i: int| 0 <= i < v.seqs.len() ==> #[trigger] w.seqs[i] == v.seqs[i]
            &&& forall|i: int| 0 <= i < v.seqs.len() ==> (#[trigger] v.seqs[i]).id != s.id
            &&& forall|i: int| 0 <= i < v.finished.len() ==> (#[trigger] v.finished[i]).id != s.id
            &&& s.id < w.next_id
            &&& s.all_tokens == prompt
            &&& s.prompt.len() > 0
            &&& s.len + s.prompt.len() == prompt.len()
            &&& forall|k: int|
                0 <= k < s.prompt.len() ==> #[trigger] s.prompt[k] == prompt[s.len + k]
            &&& s.generated.len() == 0 && s.logprobs.len() == 0 && s.top_logprobs.len() == 0
            &&& s.max_new == max_new && s.eos == eos && s.stop_seqs == stop_seqs && s.logit_bias
                == logit_bias
            &&& seed != 0 ==> s.seed == seed
            &&& seed == 0 ==> s.seed == s.id
            &&& w.finished == v.finished
            &&& (w.capacity, w.prefill_rows, w.save_anchors) == (
                v.capacity,
                v.prefill_rows,
                v.save_anchors,
            )
        }),
{
}

/// A paged request is counted with its prompt and with what it does not compute, and has its pages
/// as its block table; its entry names its prompt and cannot be reused yet.
pub proof fn lemma_joins_paged(v: EngineView, s: SeqView, prompt: Seq<u32>, source: Source)
    requires
        v.wf(),
        v.paged is Some,
        source is Pages,
        0 <= v.reused(prompt, source) <= prompt.len(),
        v.paged->0.requests < usize::MAX,
        v.paged->0.prompt_tokens + prompt.len() <= usize::MAX,
    ensures
        ({
            let p = v.paged->0;
            let w = v.added(s, prompt, source);
            let q = w.paged->0;
            &&& w.paged is Some
            &&& q.requests == p.requests + 1
            &&& q.prompt_tokens == p.prompt_tokens + prompt.len()
            &&& q.reused_tokens == p.reused_tokens + v.reused(prompt, source)
            &&& q.tables == p.tables.push(source->pages@)
            &&& q.entries.len() == p.entries.len() + 1
            &&& q.entries.last().prefix == prompt
            &&& q.entries.last().chain == source->chain@
            &&& !q.entries.last().registered
            &&& forall|i: int| 0 <= i < p.entries.len() ==> #[trigger] q.entries[i] == p.entries[i]
            &&& q.retired == p.retired
            &&& q.tokens_per_page == p.tokens_per_page
        }),
{
}

/// `r` prompt tokens fill whole pages that a request with a complete prefill computed alike.
pub open spec fn served_by_pages(p: PagedView, prompt: Seq<u32>, r: int) -> bool {
    &&& 0 <= r
    &&& r % (p.tokens_per_page as int) == 0
    &&& r > 0 ==> exists|e: EntryView|
        (p.entries.contains(e) || p.retired.contains(e)) && #[trigger] covers(e, prompt, r)
}

/// The entry's prompt begins with the first `r` tokens, and its prefill is complete.
pub open spec fn covers(e: EntryView, prompt: Seq<u32>, r: int) -> bool {
    &&& e.registered
    &&& r <= e.prefix.len()
    &&& forall|k: int| 0 <= k < r ==> #[trigger] e.prefix[k] == prompt[k]
}

/// Prefill starts as late as it can: behind the most whole pages that an earlier request left,
/// active or retired, but before the last prompt token.
pub proof fn lemma_reuse_boundary(p: PagedView, prompt: Seq<u32>)
    requires
        p.tokens_per_page > 0,
        prompt.len() > 0,
    ensures
        0 <= p.boundary(prompt) < prompt.len(),
        served_by_pages(p, prompt, p.boundary(prompt)),
        forall|r: int|
            r < prompt.len() && #[trigger] served_by_pages(p, prompt, r) ==> r <= p.boundary(
                prompt,
            ),
{
    let page = p.tokens_per_page as int;
    let owners = p.owners();
    let best = p.reusable(prompt);
    let b = p.boundary(prompt);
    lemma_reuse_is_longest(owners, prompt, page);
    assert(owned(owners, prompt, page, best));
    assert forall|r: int| r <= prompt.len() && #[trigger] served_by_pages(p, prompt, r) implies r
        <= best by {
        if r > 0 {
            let e = choose|e: EntryView|
                (p.entries.contains(e) || p.retired.contains(e)) && #[trigger] covers(
                    e,
                    prompt,
                    r,
                );
            let i = if p.entries.contains(e) {
                choose|i: int| 0 <= i < p.entries.len() && p.entries[i] == e
            } else {
                p.entries.len() + choose|i: int| 0 <= i < p.retired.len() && p.retired[i] == e
            };
            assert(owners[i] == e);
            assert(e.prefix.take(r) =~= prompt.take(r));
            assert(owned(owners, prompt, page, r));
        }
    }
    vstd::arithmetic::div_mod::lemma_fundamental_div_mod(best, page);
    let q = best / page;
    if best == prompt.len() {
        assert(q >= 1 && page * q - page >= 0) by (nonlinear_arith)
            requires
                page * q == best,
                best > 0,
                page > 0,
        ;
        assert(b == page * (q - 1)) by (nonlinear_arith)
            requires
                b == best - page,
                best == page * q,
        ;
        vstd::arithmetic::div_mod::lemma_mod_multiples_basic(q - 1, page);
        vstd::arithmetic::mul::lemma_mul_is_commutative(q - 1, page);
    }
    assert(served_by_pages(p, prompt, b)) by {
        if b > 0 {
            let i = choose|i: int|
                #![trigger owners[i]]
                0 <= i < owners.len() && owners[i].registered && best <= owners[i].prefix.len()
                    && owners[i].prefix.take(best) == prompt.take(best);
            let e = owners[i];
            if i < p.entries.len() {
                assert(p.entries[i] == e);
            } else {
                assert(p.retired[i - p.entries.len()] == e);
            }
            assert forall|k: int| 0 <= k < b implies #[trigger] e.prefix[k] == prompt[k] by {
                assert(e.prefix.take(best)[k] == prompt.take(best)[k]);
            }
            assert(covers(e, prompt, b));
        }
    }
    assert forall|r: int| r < prompt.len() && #[trigger] served_by_pages(p, prompt, r) implies r
        <= b by {
        if best == prompt.len() && r > b {
            vstd::arithmetic::div_mod::lemma_fundamental_div_mod(r, page);
            let m = r / page;
            assert(false) by (nonlinear_arith)
                requires
                    page * m == r,
                    page * q == best,
                    best - page < r < best,
                    page > 0,
            ;
        }
    }
}

/// The spans of a step follow each other in the order of the sequences and cover its rows; a span
/// is one of prompt rows exactly if it has rows and its sequence still has prompt.
pub proof fn lemma_span(v: EngineView, i: int)
    requires
        v.wf(),
        0 <= i < v.seqs.len(),
    ensures
        ({
            let s = v.spans()[i];
            &&& v.spans().len() == v.seqs.len()
            &&& s.start == v.row_start(i)
            &&& s.count == v.rows_of(i)
            &&& s.start + s.count == v.row_start(i + 1) <= v.rows().len()
            &&& s.prefill <==> s.count > 0 && v.seqs[i].prompt.len() > 0
        }),
{
    lemma_spans(v, i);
}

/// A step only decodes exactly if no row of it feeds a prompt token.
pub proof fn lemma_only_decodes(v: EngineView)
    requires
        v.wf(),
    ensures
        v.decode_only() <==> forall|i: int|
            0 <= i < v.seqs.len() && (#[trigger] v.seqs[i]).prompt.len() > 0 ==> v.rows_of(i) == 0,
{
    assert forall|i: int| 0 <= i < v.seqs.len() implies 0 <= v.rows_of(i) && (v.span(i).prefill
        <==> v.rows_of(i) > 0 && (#[trigger] v.seqs[i]).prompt.len() > 0) by {
        lemma_span(v, i);
    }
    if v.decode_only() {
        assert forall|i: int|
            0 <= i < v.seqs.len() && (#[trigger] v.seqs[i]).prompt.len() > 0 implies v.rows_of(i)
            == 0 by {
            assert(!v.span(i).prefill);
        }
    }
    if forall|i: int|
        0 <= i < v.seqs.len() && (#[trigger] v.seqs[i]).prompt.len() > 0 ==> v.rows_of(i) == 0 {
        assert forall|i: int| 0 <= i < v.seqs.len() implies !(#[trigger] v.span(i)).prefill by {
            assert(v.seqs[i].prompt.len() > 0 ==> v.rows_of(i) == 0);
        }
    }
}

/// A prompt is admitted exactly if it has tokens, fits the context and finds a free slot.
pub proof fn lemma_admitted(v: EngineView, prompt: Seq<u32>)
    requires
        prompt.len() <= usize::MAX,
    ensures
        ({
            let max_len = v.model.cfg.max_seq_len;
            match v.admission_error(prompt) {
                None => 0 < prompt.len() <= max_len && v.seqs.len() < v.capacity,
                Some(EngineError::EmptyPrompt) => prompt.len() == 0,
                Some(EngineError::PromptTooLong { len, max_seq_len }) => len == prompt.len()
                    && max_seq_len == max_len && len > max_seq_len,
                Some(EngineError::AtCapacity) => 0 < prompt.len() <= max_len && v.seqs.len()
                    >= v.capacity,
                Some(_) => false,
            }
        }),
{
}

/// A source is refused exactly as what it needs is: an anchor as its restore into the free slot, a
/// page plan as its block table there, and a failed page plan always. Nothing else is refused.
pub proof fn lemma_source_refused(v: EngineView, source: Source)
    ensures
        ({
            let slot = v.seqs.len() as usize;
            match source {
                Source::Fresh => v.source_error(source) is None,
                Source::Anchor { token_idx, kv_sizes, .. } => {
                    let e = v.model.restore_error(slot, token_idx, kv_sizes@);
                    &&& v.source_error(source) is None <==> e is None
                    &&& e is Some ==> v.source_error(source) == Some(EngineError::Restore(e->0))
                },
                Source::Pages { pages, .. } => {
                    let e = v.model.table_error(slot, pages@);
                    &&& v.source_error(source) is None <==> e is None
                    &&& e is Some ==> v.source_error(source) == Some(EngineError::BlockTable(e->0))
                },
                Source::NoPages => v.source_error(source) == Some(EngineError::PagePlan),
            }
        }),
{
}

/// Without pages no slot is registered, and none leaves an entry.
pub proof fn lemma_nothing_materialized(v: EngineView, samples: Seq<SampleView>, n: nat)
    requires
        v.paged is None,
    ensures
        v.materialized(n).len() == 0,
        v.stepped(samples).paged is None,
    decreases n,
{
    if n > 0 {
        lemma_nothing_materialized(v, samples, (n - 1) as nat);
    }
}

/// What a new sequence does not compute: what its anchor covers, or the pages that an earlier
/// request left; otherwise it computes everything. It starts behind that.
pub proof fn lemma_starts_behind(
    v: EngineView,
    prompt: Seq<u32>,
    max_new: usize,
    eos: Option<u32>,
    stop_seqs: Seq<Seq<u32>>,
    logit_bias: Seq<(u32, F32Bits)>,
    seed: u64,
    source: Source,
)
    requires
        v.wf(),
        0 <= v.reused(prompt, source) < prompt.len() <= v.max_seq(),
    ensures
        ({
            let s = v.new_seq(prompt, max_new, eos, stop_seqs, logit_bias, seed, source);
            match source {
                Source::Fresh => s.len == 0,
                Source::Anchor { prefix_len, .. } => s.len == prefix_len,
                Source::Pages { .. } => v.paged matches Some(p) ==> s.len == p.boundary(prompt),
                Source::NoPages => s.len == 0,
            }
        }),
{
}

/// The source of a sequence matches how its engine keeps caches: pages, or a page plan that failed,
/// where it pages; an anchor only where it saves them and part of the prompt is left; anything else
/// computes afresh.
pub proof fn lemma_source_kinds(v: EngineView, prompt: Seq<u32>, source: Source)
    ensures
        v.source_fits(source, prompt) ==> (v.paged is Some <==> source is Pages
            || source is NoPages),
        source is Fresh ==> (v.source_fits(source, prompt) <==> v.paged is None),
        source is Pages || source is NoPages ==> (v.source_fits(source, prompt)
            <==> v.paged is Some),
        source matches Source::Anchor { prefix_len, token_idx, .. } ==> (token_idx < usize::MAX ==> (
        v.source_fits(source, prompt) <==> v.paged is None && v.save_anchors && prefix_len
            < prompt.len())),
{
}

/// A paged sequence that leaves takes its block table with it and leaves its entry behind as the
/// newest of the retired; the others keep theirs, in their order, and the counters stay.
pub proof fn lemma_leaves_entry(v: EngineView, slot: int)
    requires
        v.wf(),
        v.paged is Some,
        0 <= slot < v.seqs.len(),
    ensures
        ({
            let p = v.paged->0;
            let q = v.without(slot).paged->0;
            &&& v.without(slot).paged is Some
            &&& q.retired.len() == p.retired.len() + 1
            &&& q.retired.last() == p.entries[slot]
            &&& forall|i: int| 0 <= i < p.retired.len() ==> #[trigger] q.retired[i] == p.retired[i]
            &&& q.tables.len() == p.tables.len() - 1
            &&& q.entries.len() == p.entries.len() - 1
            &&& forall|i: int|
                0 <= i < slot ==> #[trigger] q.tables[i] == p.tables[i] && q.entries[i]
                    == p.entries[i]
            &&& forall|i: int|
                slot <= i < q.tables.len() ==> #[trigger] q.tables[i] == p.tables[i + 1]
                    && q.entries[i] == p.entries[i + 1]
            &&& (q.requests, q.reused_tokens, q.prompt_tokens, q.tokens_per_page) == (
                p.requests,
                p.reused_tokens,
                p.prompt_tokens,
                p.tokens_per_page,
            )
        }),
{
}

} // verus!
