//! When the continuous-batching engine ends a sequence, and what it reports of it.
//!
//! Everything here is said of the fields of a sequence: its tokens, its end token, its stop
//! sequences and its limits.

use vstd::prelude::*;

use crate::engine_laws::finish_all;
use crate::engine_laws::lemma_finish_all;
use crate::engine_model::lemma_spans;
use crate::engine_model::marked;
use crate::engine_model::EngineView;
use crate::engine_model::FinishedView;
use crate::sequence::any_stop;
use crate::sequence::ends_with;
use crate::sequence::SampleView;
use crate::sequence::SeqView;

verus! {

/// The tokens are some tokens followed by `stop`, which is not empty.
pub open spec fn closes(tokens: Seq<u32>, stop: Seq<u32>) -> bool {
    stop.len() > 0 && exists|front: Seq<u32>| tokens == #[trigger] (front + stop)
}

/// The last token is the end token.
pub open spec fn at_end_token(s: SeqView) -> bool {
    s.generated.len() > 0 && s.eos is Some && s.eos->0 == s.generated[s.generated.len() - 1]
}

/// The tokens end with one of the stop sequences.
pub open spec fn at_stop_sequence(s: SeqView) -> bool {
    exists|j: int| 0 <= j < s.stop_seqs.len() && closes(s.generated, #[trigger] s.stop_seqs[j])
}

/// A sequence that goes on: it generated nothing yet, or is neither at its end token nor at one
/// of its stop sequences and has fewer tokens than it may; and its context is not full.
pub open spec fn goes_on(s: SeqView, max_seq: int) -> bool {
    &&& s.generated.len() > 0 ==> {
        &&& !at_end_token(s)
        &&& !at_stop_sequence(s)
        &&& s.generated.len() < s.max_new
    }
    &&& s.prompt.len() > 0 || s.len < max_seq
}

proof fn lemma_closes(tokens: Seq<u32>, stop: Seq<u32>)
    ensures
        closes(tokens, stop) <==> ends_with(tokens, stop),
{
    if closes(tokens, stop) {
        let front = choose|front: Seq<u32>| tokens == #[trigger] (front + stop);
        assert(tokens.skip(tokens.len() - stop.len()) =~= stop);
    }
    if ends_with(tokens, stop) {
        let front = tokens.take(tokens.len() - stop.len());
        assert(tokens =~= front + stop);
    }
}

/// A sequence counts as stopped exactly if its last token is its end token, or its tokens end
/// with one of its stop sequences, whichever of the two it has.
pub proof fn lemma_stopped(s: SeqView)
    ensures
        s.stopped() <==> at_end_token(s) || at_stop_sequence(s),
        s.result().stopped <==> at_end_token(s) || at_stop_sequence(s),
        s.result().id == s.id,
        s.result().generated == s.generated,
        s.result().logprobs == s.logprobs,
        s.result().top_logprobs == s.top_logprobs,
{
    assert(any_stop(s.generated, s.stop_seqs) <==> at_stop_sequence(s)) by {
        if any_stop(s.generated, s.stop_seqs) {
            let j = choose|j: int|
                0 <= j < s.stop_seqs.len() && ends_with(s.generated, #[trigger] s.stop_seqs[j]);
            lemma_closes(s.generated, s.stop_seqs[j]);
        }
        if at_stop_sequence(s) {
            let j = choose|j: int|
                0 <= j < s.stop_seqs.len() && closes(s.generated, #[trigger] s.stop_seqs[j]);
            lemma_closes(s.generated, s.stop_seqs[j]);
        }
    }
}

/// What a step does to one sequence that got `rows` rows, the last of which sampled `s`: it
/// consumes that many positions, from the front of its prompt while that lasts; and if no prompt
/// is left it has one token more, which is fed next. What it was asked for stays.
pub proof fn lemma_sequence_step(q: SeqView, rows: int, s: SampleView, max_seq: int)
    requires
        q.wf(max_seq),
        0 < rows,
        q.prompt.len() > 0 ==> rows <= q.prompt.len(),
        q.prompt.len() == 0 ==> rows == 1 && q.len < max_seq,
    ensures
        ({
            let a = q.advanced(rows, s);
            &&& a.len == q.len + rows
            &&& a.prompt.len() == q.prompt.len() - if q.prompt.len() > 0 {
                rows
            } else {
                0
            }
            &&& forall|k: int|
                0 <= k < a.prompt.len() ==> #[trigger] a.prompt[k] == q.prompt[k + rows]
            &&& a.prompt.len() > 0 ==> a.generated == q.generated && a.all_tokens == q.all_tokens
                && a.logprobs == q.logprobs && a.top_logprobs == q.top_logprobs
            &&& a.prompt.len() == 0 ==> {
                &&& a.generated == q.generated + seq![s.token]
                &&& a.all_tokens == q.all_tokens + seq![s.token]
                &&& a.logprobs == q.logprobs + seq![s.logprob]
                &&& a.top_logprobs == q.top_logprobs + seq![s.top]
                &&& a.first_decode == Some(s.token)
            }
            &&& a.seed == s.seed
            &&& a.id == q.id
            &&& a.max_new == q.max_new
            &&& a.eos == q.eos
            &&& a.stop_seqs == q.stop_seqs
            &&& a.logit_bias == q.logit_bias
        }),
{
    let a = q.advanced(rows, s);
    if q.prompt.len() == 0 || rows == q.prompt.len() {
        assert(a.generated =~= q.generated + seq![s.token]);
        assert(a.all_tokens =~= q.all_tokens + seq![s.token]);
        assert(a.logprobs =~= q.logprobs + seq![s.logprob]);
        assert(a.top_logprobs =~= q.top_logprobs + seq![s.top]);
    }
}

/// After every step only sequences that go on stay: none whose tokens end with one of its stop
/// sequences, whether or not it has an end token, none whose last token is its end token, none
/// with all its tokens and none with a full context.
pub proof fn lemma_no_stopped_stays(v: EngineView, samples: Seq<SampleView>)
    requires
        v.wf(),
        forall|i: int| 0 <= i < v.seqs.len() ==> goes_on(#[trigger] v.seqs[i], v.max_seq()),
    ensures
        ({
            let w = finish_all(v.stepped(samples), marked(v.done_flags(samples), v.seqs.len()));
            forall|i: int| 0 <= i < w.seqs.len() ==> goes_on(#[trigger] w.seqs[i], v.max_seq())
        }),
{
    let s = v.stepped(samples);
    let done = v.done_flags(samples);
    crate::continuous::lemma_stepped_wf(v, samples);
    lemma_finish_all(s, done);
    assert forall|i: int| 0 <= i < s.seqs.len() && !done[i] implies goes_on(
        #[trigger] s.seqs[i],
        v.max_seq(),
    ) by {
        lemma_ends(v, samples, i);
        lemma_spans(v, i);
        assert(goes_on(v.seqs[i], v.max_seq()));
        assert(v.seqs[i].wf(v.max_seq()));
    }
    lemma_others_kept(s.seqs, done, s.seqs.len(), v.max_seq());
}

proof fn lemma_others_kept(seqs: Seq<SeqView>, done: Seq<bool>, n: nat, max_seq: int)
    requires
        n <= seqs.len() == done.len(),
        forall|i: int| 0 <= i < n && !done[i] ==> goes_on(#[trigger] seqs[i], max_seq),
    ensures
        ({
            let left = crate::engine_laws::unmarked(seqs, done, n);
            forall|j: int| 0 <= j < left.len() ==> goes_on(#[trigger] left[j], max_seq)
        }),
    decreases n,
{
    if n > 0 {
        lemma_others_kept(seqs, done, (n - 1) as nat, max_seq);
        let rest = crate::engine_laws::unmarked(seqs, done, (n - 1) as nat);
        let left = crate::engine_laws::unmarked(seqs, done, n);
        assert forall|j: int| 0 <= j < left.len() implies goes_on(
            #[trigger] left[j],
            max_seq,
        ) by {
            if j < rest.len() {
                assert(left[j] == rest[j]);
            } else {
                assert(goes_on(seqs[n - 1], max_seq));
            }
        }
    }
}

/// A sequence ends with a step exactly if the step gave it a token that is its end token,
/// completes a stop sequence or is the last one it may have, or if its context is full.
pub proof fn lemma_ends(v: EngineView, samples: Seq<SampleView>, i: int)
    requires
        v.wf(),
        0 <= i < v.seqs.len(),
    ensures
        ({
            let a = v.stepped(samples).seqs[i];
            let longer = a.generated.len() > v.seqs[i].generated.len();
            v.done_flags(samples)[i] <==> (longer && (at_end_token(a) || at_stop_sequence(a)
                || a.generated.len() >= a.max_new)) || (a.prompt.len() == 0 && a.len
                >= v.max_seq())
        }),
{
    lemma_spans(v, i);
    lemma_stopped(v.advanced(samples, i));
}

/// Every sequence that ends is handed out under its own name with the tokens it generated and
/// their log-probabilities, and is reported as stopped exactly if it is at its end token or at
/// one of its stop sequences.
pub proof fn lemma_finished_report(v: EngineView, samples: Seq<SampleView>, i: int)
    requires
        v.wf(),
        0 <= i < v.seqs.len(),
        v.done_flags(samples)[i],
    ensures
        ({
            let a = v.stepped(samples).seqs[i];
            let w = finish_all(v.stepped(samples), marked(v.done_flags(samples), v.seqs.len()));
            exists|f: FinishedView| #[trigger]
                w.finished.contains(f) && f.id == v.seqs[i].id && f.generated == a.generated
                    && f.logprobs == a.logprobs && f.top_logprobs == a.top_logprobs && (f.stopped
                    <==> at_end_token(a) || at_stop_sequence(a))
        }),
{
    let s = v.stepped(samples);
    crate::continuous::lemma_stepped_wf(v, samples);
    lemma_finish_all(s, v.done_flags(samples));
    lemma_stopped(s.seqs[i]);
    lemma_spans(v, i);
    assert(s.seqs[i].id == v.seqs[i].id);
}

/// One sequence that leaves is handed out, and the others stay as they were and in their order.
pub proof fn lemma_leaving(v: EngineView, slot: int)
    requires
        0 <= slot < v.seqs.len(),
    ensures
        ({
            let w = v.without(slot);
            let f = w.finished[w.finished.len() - 1];
            &&& w.finished.len() == v.finished.len() + 1
            &&& forall|k: int| 0 <= k < v.finished.len() ==> #[trigger] w.finished[k]
                == v.finished[k]
            &&& f.id == v.seqs[slot].id
            &&& f.generated == v.seqs[slot].generated
            &&& f.logprobs == v.seqs[slot].logprobs
            &&& f.top_logprobs == v.seqs[slot].top_logprobs
            &&& f.stopped <==> at_end_token(v.seqs[slot]) || at_stop_sequence(v.seqs[slot])
            &&& w.seqs.len() == v.seqs.len() - 1
            &&& forall|k: int| 0 <= k < slot ==> #[trigger] w.seqs[k] == v.seqs[k]
            &&& forall|k: int| slot <= k < w.seqs.len() ==> #[trigger] w.seqs[k] == v.seqs[k + 1]
        }),
{
    lemma_stopped(v.seqs[slot]);
}

} // verus!
