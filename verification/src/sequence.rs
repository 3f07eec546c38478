//! One sequence of the continuous-batching engine: its prompt queue, its output and when it
//! stops.

use vstd::prelude::*;

use std::collections::VecDeque;

use crate::config::F32Bits;

verus! {

/// Stable sequence identifier.
pub type SeqId = u64;

/// The sequences held by a vector of vectors.
pub open spec fn nested<A>(v: Seq<Vec<A>>) -> Seq<Seq<A>> {
    v.map_values(|x: Vec<A>| x@)
}

/// `s` is a non-empty suffix of `g`.
pub open spec fn ends_with(g: Seq<u32>, s: Seq<u32>) -> bool {
    0 < s.len() <= g.len() && g.skip(g.len() - s.len()) == s
}

/// `g` ends with one of `seqs`.
pub open spec fn any_stop(g: Seq<u32>, seqs: Seq<Seq<u32>>) -> bool {
    exists|i: int| 0 <= i < seqs.len() && ends_with(g, #[trigger] seqs[i])
}

/// Index of the first entry for token `t`, or the length if there is none.
pub open spec fn find_token(counts: Seq<(u32, u32)>, t: u32) -> nat
    decreases counts.len(),
{
    if counts.len() == 0 {
        0
    } else if find_token(counts.drop_last(), t) < counts.len() - 1 {
        find_token(counts.drop_last(), t)
    } else if counts.last().0 == t {
        (counts.len() - 1) as nat
    } else {
        counts.len()
    }
}

/// Occurrence counts after one more `t`.
pub open spec fn bump(counts: Seq<(u32, u32)>, t: u32) -> Seq<(u32, u32)> {
    let i = find_token(counts, t) as int;
    if i < counts.len() {
        counts.update(i, (t, (counts[i].1 + 1) as u32))
    } else {
        counts.push((t, 1))
    }
}

/// Occurrence counts of the tokens of `g`, in order of first occurrence.
pub open spec fn tally(g: Seq<u32>) -> Seq<(u32, u32)>
    decreases g.len(),
{
    if g.len() == 0 {
        Seq::empty()
    } else {
        bump(tally(g.drop_last()), g.last())
    }
}

/// How often `t` occurs in `g`.
pub open spec fn occurrences(g: Seq<u32>, t: u32) -> nat
    decreases g.len(),
{
    if g.len() == 0 {
        0
    } else {
        occurrences(g.drop_last(), t) + if g.last() == t {
            1nat
        } else {
            0nat
        }
    }
}

proof fn lemma_find_token(counts: Seq<(u32, u32)>, t: u32)
    ensures
        find_token(counts, t) <= counts.len(),
        find_token(counts, t) < counts.len() ==> counts[find_token(counts, t) as int].0 == t,
        forall|i: int| 0 <= i < find_token(counts, t) ==> (#[trigger] counts[i]).0 != t,
    decreases counts.len(),
{
    if counts.len() > 0 {
        let front = counts.drop_last();
        lemma_find_token(front, t);
        assert forall|i: int| 0 <= i < find_token(counts, t) implies (
        #[trigger] counts[i]).0 != t by {
            if i < front.len() {
                assert(counts[i] == front[i]);
            }
        }
        if find_token(front, t) < front.len() {
            assert(counts[find_token(front, t) as int] == front[find_token(front, t) as int]);
        }
    }
}

proof fn lemma_occurrences_bound(g: Seq<u32>, t: u32)
    ensures
        occurrences(g, t) <= g.len(),
    decreases g.len(),
{
    if g.len() > 0 {
        lemma_occurrences_bound(g.drop_last(), t);
    }
}

/// The counts of a sequence list every token that occurs once, with how often it occurs, and no
/// other token.
pub proof fn lemma_tally(g: Seq<u32>)
    requires
        g.len() <= u32::MAX,
    ensures
        forall|i: int, j: int|
            0 <= i < j < tally(g).len() ==> (#[trigger] tally(g)[i]).0 != (#[trigger] tally(
                g,
            )[j]).0,
        forall|i: int|
            0 <= i < tally(g).len() ==> (#[trigger] tally(g)[i]).1 == occurrences(g, tally(g)[i].0)
                && tally(g)[i].1 > 0,
        forall|t: u32|
            #[trigger] occurrences(g, t) > 0 ==> find_token(tally(g), t) < tally(g).len(),
        tally(g).len() <= g.len(),
    decreases g.len(),
{
    if g.len() > 0 {
        let f = g.drop_last();
        let t = g.last();
        let c = tally(f);
        let d = tally(g);
        lemma_tally(f);
        lemma_find_token(c, t);
        lemma_occurrences_bound(f, t);
        let k = find_token(c, t) as int;
        assert forall|i: int| 0 <= i < d.len() implies (#[trigger] d[i]).1 == occurrences(
            g,
            d[i].0,
        ) && d[i].1 > 0 by {
            if i == k {
                if k == c.len() && occurrences(f, t) > 0 {
                    assert(find_token(c, t) < c.len());
                }
            } else {
                assert(d[i] == c[i]);
                if c[i].0 == t && k < c.len() {
                    assert(c[k].0 == t);
                }
            }
        }
        assert forall|i: int, j: int| 0 <= i < j < d.len() implies (#[trigger] d[i]).0 != (
        #[trigger] d[j]).0 by {
            if j < c.len() {
                assert(c[i].0 != c[j].0);
                assert(d[i].0 == c[i].0 && d[j].0 == c[j].0);
            } else {
                assert(d[i] == c[i]);
            }
        }
        assert forall|u: u32| #[trigger] occurrences(g, u) > 0 implies find_token(d, u)
            < d.len() by {
            lemma_find_token(d, u);
            if u == t {
                assert(d[k].0 == t);
            } else {
                assert(occurrences(f, u) > 0);
                let m = find_token(c, u) as int;
                lemma_find_token(c, u);
                assert(d[m].0 == u);
            }
        }
    }
}

/// True when `generated` ends with any of `seqs` (stop sequences).
#[must_use]
pub fn ends_with_stop(generated: &[u32], seqs: &[Vec<u32>]) -> (b: bool)
    ensures
        b == any_stop(generated@, nested(seqs@)),
{
    let mut i: usize = 0;
    while i < seqs.len()
        invariant
            i <= seqs@.len(),
            forall|k: int| 0 <= k < i ==> !ends_with(generated@, #[trigger] nested(seqs@)[k]),
        decreases seqs@.len() - i,
    {
        if is_suffix(generated, &seqs[i]) {
            assert(ends_with(generated@, nested(seqs@)[i as int]));
            return true;
        }
        assert(nested(seqs@)[i as int] == seqs@[i as int]@);
        i = i + 1;
    }
    false
}

fn is_suffix(g: &[u32], s: &Vec<u32>) -> (b: bool)
    ensures
        b == ends_with(g@, s@),
{
    let n: usize = s.len();
    if n == 0 || n > g.len() {
        return false;
    }
    let start: usize = g.len() - n;
    let mut j: usize = 0;
    while j < n
        invariant
            j <= n,
            n == s.len(),
            start + n == g@.len() <= usize::MAX,
            forall|k: int| 0 <= k < j ==> #[trigger] s[k] == g@[start + k],
        decreases n - j,
    {
        if g[start + j] != s[j] {
            assert(g@.skip(start as int)[j as int] != s@[j as int]);
            return false;
        }
        j = j + 1;
    }
    assert(g@.skip(start as int) =~= s@);
    true
}

/// What the sampler returned for one row.
pub struct Sample {
    pub token: u32,
    pub logprob: F32Bits,
    /// The most likely tokens with their log-probabilities.
    pub top: Vec<(u32, F32Bits)>,
    /// The row's seed after its draws.
    pub seed: u64,
}

pub struct SampleView {
    pub token: u32,
    pub logprob: F32Bits,
    pub top: Seq<(u32, F32Bits)>,
    pub seed: u64,
}

impl View for Sample {
    type V = SampleView;

    open spec fn view(&self) -> SampleView {
        SampleView {
            token: self.token,
            logprob: self.logprob,
            top: self.top@,
            seed: self.seed,
        }
    }
}

/// Per-sequence state.
pub struct SeqState {
    pub id: SeqId,
    /// Remaining prompt tokens (prefill queue).
    pub prompt: VecDeque<u32>,
    /// Generated tokens so far.
    pub generated: Vec<u32>,
    /// Full token stream (prompt + generated).
    pub all_tokens: Vec<u32>,
    /// Maximum generated tokens.
    pub max_new: usize,
    /// Sampling seed, which advances every step.
    pub seed: u64,
    /// End-of-sequence token (`None` disables early stopping).
    pub eos: Option<u32>,
    /// Generation finishes as soon as `generated` ends with one of these.
    pub stop_seqs: Vec<Vec<u32>>,
    /// Log-probability of each generated token.
    pub logprobs: Vec<F32Bits>,
    /// Most likely tokens at each generated position.
    pub top_logprobs: Vec<Vec<(u32, F32Bits)>>,
    /// Occurrence counts of `generated`.
    pub counts: Vec<(u32, u32)>,
    /// Bias added to the logits of every sampled step.
    pub logit_bias: Vec<(u32, F32Bits)>,
    /// KV positions consumed.
    pub len: usize,
    /// The token to feed next, once the prompt is consumed.
    pub first_decode: Option<u32>,
}

/// The state of a [`SeqState`]. The occurrence counts follow from `generated`.
pub struct SeqView {
    pub id: SeqId,
    pub prompt: Seq<u32>,
    pub generated: Seq<u32>,
    pub all_tokens: Seq<u32>,
    pub max_new: usize,
    pub seed: u64,
    pub eos: Option<u32>,
    pub stop_seqs: Seq<Seq<u32>>,
    pub logprobs: Seq<F32Bits>,
    pub top_logprobs: Seq<Seq<(u32, F32Bits)>>,
    pub logit_bias: Seq<(u32, F32Bits)>,
    pub len: usize,
    pub first_decode: Option<u32>,
}

impl View for SeqState {
    type V = SeqView;

    open spec fn view(&self) -> SeqView {
        SeqView {
            id: self.id,
            prompt: self.prompt@,
            generated: self.generated@,
            all_tokens: self.all_tokens@,
            max_new: self.max_new,
            seed: self.seed,
            eos: self.eos,
            stop_seqs: nested(self.stop_seqs@),
            logprobs: self.logprobs@,
            top_logprobs: nested(self.top_logprobs@),
            logit_bias: self.logit_bias@,
            len: self.len,
            first_decode: self.first_decode,
        }
    }
}

impl SeqView {
    /// The invariant of a sequence in an engine with room for `max_seq` positions. While the
    /// prompt lasts nothing is generated and the queue is what follows the consumed positions;
    /// afterwards every token but the last is consumed, and the last is fed next.
    pub open spec fn wf(self, max_seq: int) -> bool {
        &&& self.len <= max_seq <= i32::MAX
        &&& self.logprobs.len() == self.generated.len()
        &&& self.top_logprobs.len() == self.generated.len()
        &&& self.generated.len() <= self.all_tokens.len()
        &&& self.generated == self.all_tokens.skip(self.all_tokens.len() - self.generated.len())
        &&& if self.prompt.len() > 0 {
            &&& self.generated.len() == 0
            &&& self.first_decode is None
            &&& self.len + self.prompt.len() == self.all_tokens.len()
            &&& self.all_tokens.len() <= max_seq
            &&& self.prompt == self.all_tokens.skip(self.len as int)
        } else {
            &&& self.generated.len() > 0
            &&& self.first_decode == Some(self.generated.last())
            &&& self.len + 1 == self.all_tokens.len()
        }
    }

    /// The last token ends the sequence: it is the end token or completes a stop sequence.
    pub open spec fn stopped(self) -> bool {
        ||| self.generated.len() > 0 && self.eos == Some(self.generated.last())
        ||| any_stop(self.generated, self.stop_seqs)
    }

    /// Generation is over: it stopped, or has its tokens.
    pub open spec fn complete(self) -> bool {
        self.stopped() || self.generated.len() >= self.max_new
    }

    /// The prompt is consumed and the context is full.
    pub open spec fn full(self, max_seq: int) -> bool {
        self.prompt.len() == 0 && self.len >= max_seq
    }

    /// The first `n` prompt tokens are consumed.
    pub open spec fn fed(self, n: int) -> SeqView {
        SeqView { prompt: self.prompt.skip(n), len: (self.len + n) as usize, ..self }
    }

    /// A sampled token is appended and fed next.
    pub open spec fn with_token(self, s: SampleView) -> SeqView {
        SeqView {
            generated: self.generated.push(s.token),
            all_tokens: self.all_tokens.push(s.token),
            logprobs: self.logprobs.push(s.logprob),
            top_logprobs: self.top_logprobs.push(s.top),
            first_decode: Some(s.token),
            ..self
        }
    }

    /// A step of `count` rows yields a token: a decode row does, and the rows that complete the
    /// prompt do.
    pub open spec fn produces(self, count: int) -> bool {
        count > 0 && (self.prompt.len() == 0 || count == self.prompt.len())
    }

    /// The state after a step of `count` rows whose last row returned `s`.
    pub open spec fn advanced(self, count: int, s: SampleView) -> SeqView {
        if count == 0 {
            self
        } else {
            let seeded = SeqView { seed: s.seed, ..self };
            let consumed = if self.prompt.len() > 0 {
                seeded.fed(count)
            } else {
                SeqView { len: (self.len + 1) as usize, ..seeded }
            };
            if self.produces(count) {
                consumed.with_token(s)
            } else {
                consumed
            }
        }
    }
}

/// A step keeps the invariant, whatever was sampled.
pub proof fn lemma_advanced_wf(v: SeqView, count: int, s: SampleView, max_seq: int)
    requires
        v.wf(max_seq),
        0 <= count,
        v.prompt.len() > 0 ==> count <= v.prompt.len(),
        v.prompt.len() == 0 && count > 0 ==> v.len < max_seq,
    ensures
        v.advanced(count, s).wf(max_seq),
        v.advanced(count, s).all_tokens.len() == v.all_tokens.len() + if v.produces(count) {
            1int
        } else {
            0int
        },
{
    if count > 0 {
        let a = v.advanced(count, s);
        if v.prompt.len() > 0 {
            assert(v.prompt.skip(count) =~= v.all_tokens.skip(v.len + count));
        }
        assert(a.generated =~= a.all_tokens.skip(a.all_tokens.len() - a.generated.len()));
    }
}

/// Copies a list of pairs.
pub(crate) fn copy_pairs(src: &Vec<(u32, u32)>) -> (dst: Vec<(u32, u32)>)
    ensures
        dst@ == src@,
{
    let mut dst: Vec<(u32, u32)> = Vec::new();
    let mut i: usize = 0;
    while i < src.len()
        invariant
            i <= src.len(),
            dst@ == src@.take(i as int),
        decreases src.len() - i,
    {
        dst.push(src[i]);
        i = i + 1;
        assert(dst@ =~= src@.take(i as int));
    }
    assert(src@.take(i as int) =~= src@);
    dst
}

/// Copies a list of tokens.
pub(crate) fn copy_tokens(src: &[u32]) -> (dst: Vec<u32>)
    ensures
        dst@ == src@,
{
    let mut dst: Vec<u32> = Vec::new();
    let mut i: usize = 0;
    while i < src.len()
        invariant
            i <= src@.len(),
            dst@ == src@.take(i as int),
        decreases src@.len() - i,
    {
        dst.push(src[i]);
        i = i + 1;
        assert(dst@ =~= src@.take(i as int));
    }
    assert(src@.take(i as int) =~= src@);
    dst
}

impl SeqState {
    /// The invariant of the state.
    pub open spec fn wf(&self, max_seq: int) -> bool {
        self@.wf(max_seq) && self.counts@ == tally(self.generated@)
    }

    /// A sequence that starts behind `reused` positions of its prompt.
    pub fn start(
        id: SeqId,
        prompt: &[u32],
        reused: usize,
        max_new: usize,
        eos: Option<u32>,
        stop_seqs: Vec<Vec<u32>>,
        logit_bias: Vec<(u32, F32Bits)>,
        seed: u64,
    ) -> (s: SeqState)
        requires
            reused < prompt@.len() <= i32::MAX,
        ensures
            s.counts@ == tally(s.generated@),
            s@ == (SeqView {
                id,
                prompt: prompt@.skip(reused as int),
                generated: Seq::empty(),
                all_tokens: prompt@,
                max_new,
                seed,
                eos,
                stop_seqs: nested(stop_seqs@),
                logprobs: Seq::empty(),
                top_logprobs: Seq::empty(),
                logit_bias: logit_bias@,
                len: reused,
                first_decode: None,
            }),
            s@.wf(prompt@.len() as int),
    {
        let mut queue: VecDeque<u32> = VecDeque::new();
        let mut i: usize = reused;
        while i < prompt.len()
            invariant
                reused <= i <= prompt@.len(),
                queue@ == prompt@.subrange(reused as int, i as int),
            decreases prompt@.len() - i,
        {
            queue.push_back(prompt[i]);
            i = i + 1;
            assert(queue@ =~= prompt@.subrange(reused as int, i as int));
        }
        assert(queue@ =~= prompt@.skip(reused as int));
        let s = SeqState {
            id,
            prompt: queue,
            generated: Vec::new(),
            all_tokens: copy_tokens(prompt),
            max_new,
            seed,
            eos,
            stop_seqs,
            logprobs: Vec::new(),
            top_logprobs: Vec::new(),
            counts: Vec::new(),
            logit_bias,
            len: reused,
            first_decode: None,
        };
        assert(s@.top_logprobs =~= Seq::empty());
        assert(s@.generated =~= s@.all_tokens.skip(s@.all_tokens.len() as int));
        s
    }

    /// Whether the last token ended the sequence.
    pub fn is_stopped(&self) -> (b: bool)
        ensures
            b == self@.stopped(),
    {
        if self.generated.len() > 0 {
            let last: u32 = self.generated[self.generated.len() - 1];
            if let Some(e) = self.eos {
                if e == last {
                    return true;
                }
            }
        }
        ends_with_stop(self.generated.as_slice(), self.stop_seqs.as_slice())
    }

    /// Whether generation is over.
    pub fn is_complete(&self) -> (b: bool)
        ensures
            b == self@.complete(),
    {
        self.is_stopped() || self.generated.len() >= self.max_new
    }

    fn count_token(&mut self, t: u32)
        requires
            forall|i: int|
                0 <= i < old(self).counts.len() ==> (#[trigger] old(self).counts[i]).1 < u32::MAX,
        ensures
            final(self).counts@ == bump(old(self).counts@, t),
            final(self)@ == old(self)@,
    {
        let ghost c = self.counts@;
        proof {
            lemma_find_token(c, t);
        }
        let mut i: usize = 0;
        while i < self.counts.len()
            invariant
                i <= self.counts.len(),
                self.counts@ == c,
                c == old(self).counts@,
                self@ == old(self)@,
                i <= find_token(c, t) <= c.len(),
                find_token(c, t) < c.len() ==> c[find_token(c, t) as int].0 == t,
                forall|k: int| 0 <= k < find_token(c, t) ==> (#[trigger] c[k]).0 != t,
                forall|k: int| 0 <= k < c.len() ==> (#[trigger] c[k]).1 < u32::MAX,
            decreases self.counts.len() - i,
        {
            if self.counts[i].0 == t {
                assert(c[i as int].1 < u32::MAX);
                let n: u32 = self.counts[i].1 + 1;
                self.counts.set(i, (t, n));
                return ;
            }
            assert(c[i as int].0 != t);
            i = i + 1;
        }
        self.counts.push((t, 1));
    }

    /// Appends a sampled token.
    fn accept(&mut self, s: &Sample)
        requires
            old(self).counts@ == tally(old(self).generated@),
            old(self).generated.len() < u32::MAX,
        ensures
            final(self).counts@ == tally(final(self).generated@),
            final(self)@ == old(self)@.with_token(s@),
    {
        let ghost v = self@;
        proof {
            lemma_tally(self.generated@);
            assert forall|i: int| 0 <= i < self.counts.len() implies (
            #[trigger] self.counts[i]).1 < u32::MAX by {
                lemma_occurrences_bound(self.generated@, self.counts[i].0);
                assert(tally(self.generated@)[i].1 == occurrences(
                    self.generated@,
                    tally(self.generated@)[i].0,
                ));
            }
        }
        self.count_token(s.token);
        let ghost g = self.generated@;
        self.generated.push(s.token);
        assert(self.generated@.drop_last() =~= g);
        self.all_tokens.push(s.token);
        self.logprobs.push(s.logprob);
        self.top_logprobs.push(copy_pairs(&s.top));
        self.first_decode = Some(s.token);
        assert(self@.top_logprobs =~= v.top_logprobs.push(s.top@));
    }

    /// Applies the outcome of a step of `count` rows. Returns whether it yielded a token.
    pub fn advance(&mut self, count: usize, s: &Sample, max_seq: usize) -> (produced: bool)
        requires
            old(self).wf(max_seq as int),
            0 < count,
            old(self)@.prompt.len() > 0 ==> count <= old(self)@.prompt.len(),
            old(self)@.prompt.len() == 0 ==> old(self)@.len < max_seq,
        ensures
            produced == old(self)@.produces(count as int),
            final(self)@ == old(self)@.advanced(count as int, s@),
            final(self).wf(max_seq as int),
    {
        let ghost v = self@;
        proof {
            lemma_advanced_wf(v, count as int, s@, max_seq as int);
        }
        self.seed = s.seed;
        if self.prompt.len() > 0 {
            let mut k: usize = 0;
            assert(v.prompt.skip(0) =~= v.prompt);
            while k < count
                invariant
                    k <= count <= v.prompt.len(),
                    self@ == (SeqView { seed: s.seed, prompt: v.prompt.skip(k as int), ..v }),
                    self.counts@ == tally(self.generated@),
                decreases count - k,
            {
                let _ = self.prompt.pop_front();
                k = k + 1;
                assert(self.prompt@ =~= v.prompt.skip(k as int));
            }
            self.len = self.len + count;
            if self.prompt.len() > 0 {
                return false;
            }
        } else {
            self.len = self.len + 1;
        }
        self.accept(s);
        true
    }
}

} // verus!
