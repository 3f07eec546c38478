//! Continuous-batching engine.
//!
//! Wraps [`BatchedModel`] with sequence lifecycle management: sequences are added with a
//! prompt, advance with every engine step (prompt tokens are consumed first, then one token is
//! decoded per step), and finish on the end token, a stop sequence, their token limit or a full
//! context. Finished sequences free their KV slot, higher slots move down, and new sequences
//! can join at any step. Prefill and decode mix in the same batched step.
//!
//! Each sequence has a stable [`SeqId`] independent of its (changing) KV slot, so callers can
//! track outputs across compaction.
//!
//! One step is [`ContinuousModel::begin_step`], the device work it asks for,
//! [`ContinuousModel::end_step`] with what was sampled, and [`ContinuousModel::finish`] for
//! each slot that is done, in the order given.

use vstd::prelude::*;

use crate::batched::build_args;
use crate::batched::fresh_model;
use crate::batched::needs_half;
use crate::batched::paged_refusal;
use crate::batched::refusal;
use crate::batched::AnchorReads;
use crate::batched::AnchorWrites;
use crate::batched::BatchedError;
use crate::batched::BatchedModel;
use crate::batched::ModelView;
use crate::batched::StepWork;
use crate::buffers::Move;
use crate::config::Config;
use crate::config::F32Bits;
use crate::engine_model::lemma_row_starts;
use crate::engine_model::lemma_shifted;
use crate::engine_model::lemma_spans;
use crate::engine_model::lemma_table_added;
use crate::engine_model::lemma_without_wf;
use crate::engine_model::marked;
use crate::engine_model::rows_before;
use crate::engine_model::shifted;
use crate::engine_model::table_ok;
use crate::engine_model::EngineError;
use crate::engine_model::EngineView;
use crate::engine_model::FinishedView;
use crate::engine_model::RowView;
use crate::engine_model::Span;
use crate::page_reuse::EntryView;
use crate::page_reuse::PagedEngineState;
use crate::page_reuse::PagedEntry;
use crate::page_reuse::PagedView;
use crate::sequence::copy_pairs;
use crate::sequence::copy_tokens;
use crate::sequence::nested;
use crate::sequence::Sample;
use crate::sequence::SampleView;
use crate::sequence::SeqId;
use crate::sequence::SeqState;
use crate::sequence::SeqView;
use crate::upload::ModelLens;
use crate::upload::Storage;

verus! {

/// Finished sequence output, kept until acknowledged.
pub struct FinishedSeq {
    pub id: SeqId,
    pub generated: Vec<u32>,
    pub logprobs: Vec<F32Bits>,
    pub top_logprobs: Vec<Vec<(u32, F32Bits)>>,
    pub stopped: bool,
}

impl View for FinishedSeq {
    type V = FinishedView;

    open spec fn view(&self) -> FinishedView {
        FinishedView {
            id: self.id,
            generated: self.generated@,
            logprobs: self.logprobs@,
            top_logprobs: nested(self.top_logprobs@),
            stopped: self.stopped,
        }
    }
}

/// Reuse statistics of a paged engine (cross-request prompt sharing).
#[derive(Debug, Clone, Copy, PartialEq, Eq, Structural)]
pub struct PagedReuseStats {
    /// Requests admitted to the paged engine.
    pub requests: usize,
    /// Prompt tokens served from shared prefix pages (not recomputed).
    pub reused_tokens: usize,
    /// Total prompt tokens admitted.
    pub prompt_tokens: usize,
}

/// Where the KV of a new sequence's first positions comes from.
pub enum Source {
    /// Nothing is reused.
    Fresh,
    /// A saved anchor covers the first `prefix_len` prompt tokens.
    Anchor {
        prefix_len: usize,
        token_idx: usize,
        /// Bytes of the saved key and value cache of each layer.
        kv_sizes: Vec<(usize, usize)>,
        /// Width of the saved hidden state.
        hidden_len: usize,
    },
    /// Pages planned for the prompt, with the content key of each page of it.
    Pages { pages: Vec<u32>, chain: Vec<String> },
    /// The page pool could not serve the prompt.
    NoPages,
}

/// What to do for an added sequence.
pub struct Admission {
    pub id: SeqId,
    pub slot: usize,
    /// Prompt positions that are not computed again.
    pub reused: usize,
    /// Writes that restore the anchor.
    pub restore: Option<AnchorWrites>,
    /// Block-table entries to upload.
    pub upload: Option<(usize, usize)>,
}

/// The rows of a step.
pub struct StepPlan {
    pub tokens: Vec<u32>,
    /// Position of each row.
    pub lens: Vec<u32>,
    pub slots: Vec<u32>,
    pub seeds: Vec<u64>,
    /// Occurrence counts for the penalties of each row.
    pub counts: Vec<Vec<(u32, u32)>>,
    /// Logit bias of each row.
    pub bias: Vec<Vec<(u32, F32Bits)>>,
    /// The rows of each active sequence.
    pub spans: Vec<Span>,
    /// No row is a prompt token.
    pub decode_only: bool,
}

/// A step to run. Without work no row is due.
pub struct StepStart {
    pub plan: StepPlan,
    pub work: Option<StepWork>,
}

/// The outcome of a step.
pub struct StepEnd {
    /// Real tokens, by sequence.
    pub outputs: Vec<(SeqId, u32)>,
    /// Slots whose pages are to be registered under their content.
    pub materialized: Vec<usize>,
    /// Slots to finish, in this order.
    pub done: Vec<usize>,
}

/// An anchor behind a finished sequence.
pub struct SavedAnchor {
    /// The tokens that it covers.
    pub tokens: Vec<u32>,
    pub reads: AnchorReads,
}

/// What to do for a finished sequence.
pub struct FinishWork {
    /// The anchor to save, before anything moves.
    pub anchor: Option<SavedAnchor>,
    /// Pages without registered content, which return to the pool.
    pub freed: Vec<u32>,
    /// Block-table entries to upload.
    pub uploads: Vec<(usize, usize)>,
    /// Copies that move the higher sequences down, in this order.
    pub moves: Vec<Vec<Move>>,
}

/// Continuous-batching engine over a fixed-capacity batched model.
pub struct ContinuousModel {
    model: BatchedModel,
    prefill_rows: usize,
    capacity: usize,
    seqs: Vec<SeqState>,
    finished: Vec<FinishedSeq>,
    next_id: SeqId,
    save_anchors: bool,
    paged: Option<PagedEngineState>,
}

pub open spec fn seq_views(v: Seq<SeqState>) -> Seq<SeqView> {
    v.map_values(|s: SeqState| s@)
}

pub open spec fn finished_views(v: Seq<FinishedSeq>) -> Seq<FinishedView> {
    v.map_values(|f: FinishedSeq| f@)
}

pub open spec fn sample_views(v: Seq<Sample>) -> Seq<SampleView> {
    v.map_values(|s: Sample| s@)
}

pub open spec fn paged_view(p: Option<PagedEngineState>) -> Option<PagedView> {
    match p {
        Some(p) => Some(p@),
        None => None,
    }
}

impl View for ContinuousModel {
    type V = EngineView;

    closed spec fn view(&self) -> EngineView {
        EngineView {
            model: self.model@,
            prefill_rows: self.prefill_rows,
            capacity: self.capacity,
            seqs: seq_views(self.seqs@),
            finished: finished_views(self.finished@),
            next_id: self.next_id,
            save_anchors: self.save_anchors,
            paged: paged_view(self.paged),
        }
    }
}

impl StepPlan {
    /// Row `r` of the plan.
    pub open spec fn row(&self, r: int) -> RowView {
        RowView {
            token: self.tokens[r],
            pos: self.lens[r],
            slot: self.slots[r],
            seed: self.seeds[r],
            counts: self.counts[r]@,
            bias: self.bias[r]@,
        }
    }

    /// Every row has all its parts.
    pub open spec fn complete(&self) -> bool {
        let n = self.tokens.len();
        &&& self.lens.len() == n
        &&& self.slots.len() == n
        &&& self.seeds.len() == n
        &&& self.counts.len() == n
        &&& self.bias.len() == n
    }

    pub open spec fn rows(&self) -> Seq<RowView> {
        Seq::new(self.tokens.len() as nat, |r: int| self.row(r))
    }

    fn push_row(
        &mut self,
        token: u32,
        pos: u32,
        slot: u32,
        seed: u64,
        counts: Vec<(u32, u32)>,
        bias: Vec<(u32, F32Bits)>,
    )
        requires
            old(self).complete(),
        ensures
            final(self).complete(),
            final(self).rows() == old(self).rows().push(
                RowView { token, pos, slot, seed, counts: counts@, bias: bias@ },
            ),
            final(self).spans == old(self).spans,
            final(self).decode_only == old(self).decode_only,
    {
        let ghost before = self.rows();
        self.tokens.push(token);
        self.lens.push(pos);
        self.slots.push(slot);
        self.seeds.push(seed);
        self.counts.push(counts);
        self.bias.push(bias);
        assert(self.rows() =~= before.push(
            RowView { token, pos, slot, seed, counts: counts@, bias: bias@ },
        ));
    }
}

impl SavedAnchor {
    /// The anchor holds the consumed tokens of the sequence in `slot`, the KV of their
    /// positions, and the hidden state of the last of them.
    pub open spec fn covers(self, v: EngineView, slot: usize) -> bool {
        let s = v.seqs[slot as int];
        &&& self.tokens@ == s.all_tokens.take(s.len as int)
        &&& self.reads.kv@ == v.model.kv_prefix(slot, s.len as int)
        &&& self.reads.hidden == v.model.hidden_row(v.model.last_row[slot as int] as int)
    }
}

fn first_tokens(tokens: &Vec<u32>, n: usize) -> (first: Vec<u32>)
    requires
        n <= tokens.len(),
    ensures
        first@ == tokens@.take(n as int),
{
    let mut first: Vec<u32> = Vec::new();
    let mut i: usize = 0;
    while i < n
        invariant
            i <= n <= tokens.len(),
            first@ == tokens@.take(i as int),
        decreases n - i,
    {
        first.push(tokens[i]);
        i = i + 1;
        assert(first@ =~= tokens@.take(i as int));
    }
    first
}

impl EngineView {
    /// Why the source of a new sequence is refused, if it is.
    pub open spec fn source_error(self, source: Source) -> Option<EngineError> {
        let slot = self.seqs.len() as usize;
        match source {
            Source::Fresh => None,
            Source::Anchor { prefix_len, token_idx, kv_sizes, hidden_len } => match self.model.restore_error(
                slot,
                token_idx,
                kv_sizes@,
            ) {
                Some(e) => Some(EngineError::Restore(e)),
                None => None,
            },
            Source::Pages { pages, chain } => match self.model.table_error(slot, pages@) {
                Some(e) => Some(EngineError::BlockTable(e)),
                None => None,
            },
            Source::NoPages => Some(EngineError::PagePlan),
        }
    }

    /// The source fits the engine's mode, and an anchor leaves part of the prompt to compute.
    pub open spec fn source_fits(self, source: Source, prompt: Seq<u32>) -> bool {
        match source {
            Source::Fresh => self.paged is None,
            Source::Anchor { prefix_len, token_idx, .. } => {
                &&& self.paged is None
                &&& self.save_anchors
                &&& prefix_len < prompt.len()
                &&& token_idx < usize::MAX
            },
            Source::Pages { .. } | Source::NoPages => self.paged is Some,
        }
    }

    /// Prompt positions that a new sequence does not compute again.
    pub open spec fn reused(self, prompt: Seq<u32>, source: Source) -> int {
        match source {
            Source::Anchor { prefix_len, .. } => prefix_len as int,
            Source::Pages { .. } => self.paged->0.boundary(prompt),
            _ => 0,
        }
    }

    /// A new sequence behind the active ones.
    pub open spec fn new_seq(
        self,
        prompt: Seq<u32>,
        max_new: usize,
        eos: Option<u32>,
        stop_seqs: Seq<Seq<u32>>,
        logit_bias: Seq<(u32, F32Bits)>,
        seed: u64,
        source: Source,
    ) -> SeqView {
        let reused = self.reused(prompt, source);
        SeqView {
            id: self.next_id,
            prompt: prompt.skip(reused),
            generated: Seq::empty(),
            all_tokens: prompt,
            max_new,
            seed: if seed == 0 {
                self.next_id
            } else {
                seed
            },
            eos,
            stop_seqs,
            logprobs: Seq::empty(),
            top_logprobs: Seq::empty(),
            logit_bias,
            len: reused as usize,
            first_decode: None,
        }
    }

    /// The engine after `s` was added with `prompt` from `source`.
    pub open spec fn added(self, s: SeqView, prompt: Seq<u32>, source: Source) -> EngineView {
        let slot = self.seqs.len() as usize;
        EngineView {
            model: match source {
                Source::Anchor { token_idx, hidden_len, .. } => self.model.restored(
                    slot,
                    token_idx,
                    hidden_len,
                ),
                Source::Pages { pages, .. } => ModelView {
                    tables: self.model.with_table(slot, pages@),
                    ..self.model
                },
                _ => self.model,
            },
            seqs: self.seqs.push(s),
            next_id: (self.next_id + 1) as u64,
            paged: match (self.paged, source) {
                (Some(p), Source::Pages { pages, chain }) => Some(
                    PagedView {
                        tables: p.tables.push(pages@),
                        entries: p.entries.push(
                            EntryView { prefix: prompt, registered: false, chain: chain@ },
                        ),
                        requests: (p.requests + 1) as usize,
                        reused_tokens: (p.reused_tokens + self.reused(prompt, source)) as usize,
                        prompt_tokens: (p.prompt_tokens + prompt.len()) as usize,
                        ..p
                    },
                ),
                (p, _) => p,
            },
            ..self
        }
    }
}

impl ContinuousModel {
    /// The invariant of the engine.
    pub closed spec fn wf(&self) -> bool {
        &&& self@.wf()
        &&& forall|i: int|
            0 <= i < self.seqs.len() ==> (#[trigger] self.seqs[i]).wf(self@.max_seq())
    }

    /// What the invariant says of the state.
    pub proof fn lemma_wf(&self)
        requires
            self.wf(),
        ensures
            self@.wf(),
    {
    }

    /// Checks that a prompt can be admitted.
    pub fn check_prompt(&self, prompt: &[u32]) -> (r: Result<(), EngineError>)
        requires
            self.wf(),
        ensures
            match r {
                Ok(_) => self@.admission_error(prompt@) is None,
                Err(e) => self@.admission_error(prompt@) == Some(e),
            },
    {
        if prompt.len() == 0 {
            return Err(EngineError::EmptyPrompt);
        }
        if prompt.len() > self.model.max_seq_len() {
            return Err(
                EngineError::PromptTooLong {
                    len: prompt.len(),
                    max_seq_len: self.model.max_seq_len(),
                },
            );
        }
        if self.seqs.len() >= self.capacity {
            return Err(EngineError::AtCapacity);
        }
        Ok(())
    }

    /// Where prefill of a prompt would start now: behind the pages that an earlier request
    /// left. Nothing is reused outside paged mode.
    pub fn reuse_boundary(&self, prompt: &[u32]) -> (r: usize)
        requires
            self.wf(),
            prompt@.len() > 0,
        ensures
            r < prompt@.len(),
            r == match self@.paged {
                Some(p) => p.boundary(prompt@),
                None => 0,
            },
    {
        match &self.paged {
            Some(pg) => {
                let r: usize = pg.find_reusable(prompt);
                if r == prompt.len() {
                    proof {
                        vstd::arithmetic::div_mod::lemma_fundamental_div_mod(
                            r as int,
                            pg.tokens_per_page as int,
                        );
                        let q = r as int / pg.tokens_per_page as int;
                        assert(q >= 1) by (nonlinear_arith)
                            requires
                                pg.tokens_per_page * q == r,
                                r > 0,
                                pg.tokens_per_page > 0,
                        ;
                        assert(pg.tokens_per_page <= r) by (nonlinear_arith)
                            requires
                                pg.tokens_per_page * q == r,
                                q >= 1,
                        ;
                    }
                    r - pg.tokens_per_page
                } else {
                    r
                }
            },
            None => 0,
        }
    }

    /// Adds a sequence; its id is stable. A zero seed means unspecified: the sequence then
    /// draws from a seed of its own. The id is spent once the prompt is admitted, even if its
    /// source is refused.
    pub fn add(
        &mut self,
        prompt: &[u32],
        max_new: usize,
        eos: Option<u32>,
        stop_seqs: Vec<Vec<u32>>,
        logit_bias: Vec<(u32, F32Bits)>,
        seed: u64,
        source: Source,
    ) -> (r: Result<Admission, EngineError>)
        requires
            old(self).wf(),
            old(self)@.next_id < u64::MAX,
            old(self)@.admission_error(prompt@) is None ==> old(self)@.source_fits(
                source,
                prompt@,
            ),
            old(self)@.paged matches Some(p) ==> p.requests < usize::MAX && p.prompt_tokens
                + prompt@.len() <= usize::MAX,
        ensures
            final(self).wf(),
            match r {
                Ok(a) => {
                    let v = old(self)@;
                    let s = v.new_seq(
                        prompt@,
                        max_new,
                        eos,
                        nested(stop_seqs@),
                        logit_bias@,
                        seed,
                        source,
                    );
                    &&& v.admission_error(prompt@) is None
                    &&& v.source_error(source) is None
                    &&& final(self)@ == v.added(s, prompt@, source)
                    &&& a.id == v.next_id
                    &&& a.slot == v.seqs.len()
                    &&& a.reused == v.reused(prompt@, source)
                    &&& match a.restore {
                        Some(w) => {
                            &&& source is Anchor
                            &&& w.kv@ == v.model.kv_prefix(a.slot, source->token_idx + 1)
                            &&& w.hidden == if source->hidden_len == v.model.cfg.d_model {
                                Some(v.model.hidden_row(a.slot as int))
                            } else {
                                None
                            }
                        },
                        None => !(source is Anchor),
                    }
                    &&& a.upload == if source is Pages {
                        Some(
                            (
                                (a.slot * v.model.max_pages) as usize,
                                ((a.slot + 1) * v.model.max_pages) as usize,
                            ),
                        )
                    } else {
                        None
                    }
                },
                Err(e) => match old(self)@.admission_error(prompt@) {
                    Some(x) => e == x && final(self)@ == old(self)@,
                    None => old(self)@.source_error(source) == Some(e) && final(self)@ == (
                    EngineView { next_id: (old(self)@.next_id + 1) as u64, ..old(self)@ }),
                },
            },
    {
        self.check_prompt(prompt)?;
        let ghost v = self@;
        let seed: u64 = if seed == 0 {
            self.next_id
        } else {
            seed
        };
        let id: SeqId = self.next_id;
        let slot: usize = self.seqs.len();
        let boundary: usize = self.reuse_boundary(prompt);
        self.next_id = self.next_id + 1;
        assert(self.wf());
        let mut restore: Option<AnchorWrites> = None;
        let mut upload: Option<(usize, usize)> = None;
        let mut reused: usize = 0;
        match source {
            Source::Fresh => {},
            Source::Anchor { prefix_len, token_idx, kv_sizes, hidden_len } => {
                match self.model.restore_anchor(slot, token_idx, &kv_sizes, hidden_len) {
                    Ok(w) => {
                        restore = Some(w);
                    },
                    Err(e) => {
                        return Err(EngineError::Restore(e));
                    },
                }
                reused = prefix_len;
            },
            Source::Pages { pages, chain } => {
                match self.model.set_block_table(slot, pages.as_slice()) {
                    Ok(range) => {
                        upload = Some(range);
                    },
                    Err(e) => {
                        return Err(EngineError::BlockTable(e));
                    },
                }
                proof {
                    lemma_table_added(v.model, v.paged->0.tables, pages@);
                }
                reused = boundary;
                if let Some(mut pg) = self.paged.take() {
                    let ghost p = pg@;
                    pg.tables.push(pages);
                    pg.entries.push(
                        PagedEntry { prefix: copy_tokens(prompt), registered: false, chain },
                    );
                    pg.requests = pg.requests + 1;
                    pg.prompt_tokens = pg.prompt_tokens + prompt.len();
                    pg.reused_tokens = pg.reused_tokens + boundary;
                    assert(pg@.tables =~= p.tables.push(pages@));
                    assert(pg@.entries =~= p.entries.push(
                        EntryView { prefix: prompt@, registered: false, chain: chain@ },
                    ));
                    assert(pg@.retired =~= p.retired);
                    self.paged = Some(pg);
                }
            },
            Source::NoPages => {
                return Err(EngineError::PagePlan);
            },
        }
        let s = SeqState::start(
            id,
            prompt,
            reused,
            max_new,
            eos,
            stop_seqs,
            logit_bias,
            seed,
        );
        let ghost sv = s@;
        self.seqs.push(s);
        proof {
            assert(self@.seqs =~= v.seqs.push(sv));
            assert(self@ == v.added(sv, prompt@, source));
        }
        Ok(Admission { id, slot, reused, restore, upload })
    }
}

impl ContinuousModel {
    /// Appends the rows of sequence `i`, at most `budget` of them.
    fn plan_sequence(&self, plan: &mut StepPlan, i: usize, budget: usize) -> (count: usize)
        requires
            self.wf(),
            i < self@.seqs.len(),
            old(plan).complete(),
            old(plan).rows() == rows_before(
                self@.seqs,
                self@.prefill_rows as int,
                self@.max_seq(),
                i as nat,
            ),
            budget == self@.prefill_rows - old(plan).rows().len(),
        ensures
            count == self@.rows_of(i as int),
            final(plan).complete(),
            final(plan).rows() == rows_before(
                self@.seqs,
                self@.prefill_rows as int,
                self@.max_seq(),
                (i + 1) as nat,
            ),
            final(plan).spans == old(plan).spans,
            final(plan).decode_only == old(plan).decode_only,
    {
        let ghost before = plan.rows();
        let ghost s = self@.seqs[i as int];
        let ghost budget_int = budget as int;
        proof {
            assert(self.seqs[i as int].wf(self@.max_seq()));
            assert(s == self.seqs[i as int]@);
        }
        if budget == 0 {
            assert(before + Seq::new(0nat, |j: int| s.row(i as int, j)) =~= before);
            return 0;
        }
        if self.seqs[i].prompt.len() > 0 {
            let take: usize = if self.seqs[i].prompt.len() < budget {
                self.seqs[i].prompt.len()
            } else {
                budget
            };
            let mut j: usize = 0;
            assert(plan.rows() =~= before + Seq::new(0nat, |k: int| s.row(i as int, k)));
            while j < take
                invariant
                    self.wf(),
                    i < self.seqs.len(),
                    i < self@.capacity,
                    self.seqs[i as int].wf(self@.max_seq()),
                    s == self.seqs[i as int]@,
                    j <= take <= s.prompt.len(),
                    plan.complete(),
                    plan.rows() == before + Seq::new(j as nat, |k: int| s.row(i as int, k)),
                    plan.spans == old(plan).spans,
                    plan.decode_only == old(plan).decode_only,
                decreases take - j,
            {
                let counts: Vec<(u32, u32)> = Vec::new();
                let bias = copy_pairs(&self.seqs[i].logit_bias);
                let token: u32 = self.seqs[i].prompt[j];
                let pos: u32 = (self.seqs[i].len + j) as u32;
                plan.push_row(token, pos, i as u32, self.seqs[i].seed, counts, bias);
                j = j + 1;
                proof {
                    let r = s.row(i as int, j - 1);
                    assert(counts@ =~= Seq::<(u32, u32)>::empty());
                    assert(plan.rows() =~= before + Seq::new(
                        j as nat,
                        |k: int| s.row(i as int, k),
                    ));
                }
            }
            return take;
        }
        if self.seqs[i].len >= self.model.max_seq_len() {
            assert(before + Seq::new(0nat, |j: int| s.row(i as int, j)) =~= before);
            return 0;
        }
        if let Some(token) = self.seqs[i].first_decode {
            let counts = copy_pairs(&self.seqs[i].counts);
            let bias = copy_pairs(&self.seqs[i].logit_bias);
            let pos: u32 = self.seqs[i].len as u32;
            plan.push_row(token, pos, i as u32, self.seqs[i].seed, counts, bias);
            assert(plan.rows() =~= before + Seq::new(1nat, |k: int| s.row(i as int, k)));
        }
        1
    }

    /// The rows of the next step. Each step has a budget of rows: a sequence still prefilling
    /// gets up to the remaining budget of its pending prompt tokens, a decoding sequence gets
    /// one row.
    fn plan_step(&self) -> (plan: StepPlan)
        requires
            self.wf(),
        ensures
            plan.complete(),
            plan.rows() == self@.rows(),
            plan.spans@ == self@.spans(),
            plan.decode_only == self@.decode_only(),
    {
        let mut plan = StepPlan {
            tokens: Vec::new(),
            lens: Vec::new(),
            slots: Vec::new(),
            seeds: Vec::new(),
            counts: Vec::new(),
            bias: Vec::new(),
            spans: Vec::new(),
            decode_only: true,
        };
        assert(plan.rows() =~= Seq::empty());
        let ghost v = self@;
        let mut i: usize = 0;
        while i < self.seqs.len()
            invariant
                self.wf(),
                v == self@,
                i <= self.seqs.len(),
                v.seqs.len() == self.seqs.len(),
                plan.complete(),
                plan.rows() == rows_before(
                    v.seqs,
                    v.prefill_rows as int,
                    v.max_seq(),
                    i as nat,
                ),
                plan.spans@ == v.spans().take(i as int),
                plan.decode_only == (forall|k: int|
                    0 <= k < i ==> !(#[trigger] v.span(k)).prefill),
            decreases self.seqs.len() - i,
        {
            let start: usize = plan.tokens.len();
            proof {
                lemma_spans(v, i as int);
                assert(start == v.row_start(i as int));
                assert(v.seqs[i as int] == self.seqs[i as int]@);
            }
            let budget: usize = self.prefill_rows - start;
            let count: usize = self.plan_sequence(&mut plan, i, budget);
            let prefill: bool = count > 0 && self.seqs[i].prompt.len() > 0;
            plan.spans.push(Span { start, count, prefill });
            assert(plan.spans@.last() == v.span(i as int));
            if prefill {
                plan.decode_only = false;
            }
            i = i + 1;
            assert(plan.spans@ =~= v.spans().take(i as int));
        }
        assert(v.spans().take(i as int) =~= v.spans());
        plan
    }

    /// Plans the next step and stages its rows. Without a row nothing is staged: an empty batch
    /// cannot be launched.
    pub fn begin_step(&mut self) -> (r: Result<StepStart, BatchedError>)
        requires
            old(self).wf(),
        ensures
            final(self).wf(),
            match r {
                Ok(start) => {
                    let v = old(self)@;
                    let p = start.plan;
                    &&& p.complete()
                    &&& p.rows() == v.rows()
                    &&& p.spans@ == v.spans()
                    &&& p.decode_only == v.decode_only()
                    &&& match start.work {
                        Some(work) => {
                            let n = v.rows().len() as int;
                            let graph = v.model.graph_step(n, p.decode_only);
                            &&& n > 0
                            &&& v.model.rows_error(p.lens@, p.slots@) is None
                            &&& final(self)@ == (EngineView {
                                model: v.model.staged_rows(p.tokens@, p.lens@, p.slots@),
                                ..v
                            })
                            &&& work.rows == n
                            &&& work.graph == graph
                            &&& work.capture == (graph && !v.model.decode_graphs.contains(
                                n as usize,
                            ))
                            &&& work.upload_offsets == v.model.paged
                            &&& work.ops@ == v.model.step(n, p.decode_only).forward_ops(
                                v.model.layers,
                                Seq::<crate::device::Run>::empty(),
                            )
                        },
                        None => v.rows().len() == 0 && final(self)@ == v,
                    }
                },
                Err(e) => {
                    let v = old(self)@;
                    let pos = v.rows().map_values(|r: RowView| r.pos);
                    let slots = v.rows().map_values(|r: RowView| r.slot);
                    v.model.rows_error(pos, slots) == Some(e) && final(self)@ == v
                },
            },
    {
        let ghost v = self@;
        let plan = self.plan_step();
        if plan.tokens.len() == 0 {
            return Ok(StepStart { plan, work: None });
        }
        proof {
            lemma_row_starts(
                v.seqs,
                v.prefill_rows as int,
                v.max_seq(),
                v.seqs.len(),
                v.seqs.len(),
            );
            let pos = v.rows().map_values(|r: RowView| r.pos);
            let slots = v.rows().map_values(|r: RowView| r.slot);
            assert(plan.lens@ =~= pos) by {
                assert forall|k: int| 0 <= k < pos.len() implies #[trigger] pos[k]
                    == plan.lens@[k] by {
                    assert(v.rows()[k] == plan.row(k));
                }
            }
            assert(plan.slots@ =~= slots) by {
                assert forall|k: int| 0 <= k < slots.len() implies #[trigger] slots[k]
                    == plan.slots@[k] by {
                    assert(v.rows()[k] == plan.row(k));
                }
            }
        }
        let work = self.model.decode_step_explicit(
            plan.tokens.as_slice(),
            plan.lens.as_slice(),
            plan.slots.as_slice(),
            plan.decode_only,
        )?;
        Ok(StepStart { plan, work: Some(work) })
    }

    /// The graph of a step was captured.
    pub fn graph_captured(&mut self, work: &StepWork)
        requires
            old(self).wf(),
        ensures
            final(self).wf(),
            final(self)@ == (EngineView {
                model: ModelView {
                    decode_graphs: if old(self)@.model.decode_graphs.contains(work.rows) {
                        old(self)@.model.decode_graphs
                    } else {
                        old(self)@.model.decode_graphs.push(work.rows)
                    },
                    ..old(self)@.model
                },
                ..old(self)@
            }),
    {
        self.model.complete_capture(work);
    }

    /// A capture failed: steps run without graphs from now on.
    pub fn capture_failed(&mut self)
        requires
            old(self).wf(),
        ensures
            final(self).wf(),
            final(self)@ == (EngineView {
                model: ModelView { graph_enabled: false, ..old(self)@.model },
                ..old(self)@
            }),
    {
        self.model.capture_failed();
    }

    /// Applies what was sampled for the rows of a step.
    pub fn end_step(&mut self, plan: &StepPlan, samples: &Vec<Sample>) -> (end: StepEnd)
        requires
            old(self).wf(),
            plan.spans@ == old(self)@.spans(),
            samples.len() == old(self)@.rows().len(),
        ensures
            final(self).wf(),
            final(self)@ == old(self)@.stepped(sample_views(samples@)),
            end.outputs@ == old(self)@.outputs(sample_views(samples@), old(self)@.seqs.len()),
            end.materialized@ == old(self)@.materialized(old(self)@.seqs.len()),
            end.done@ == marked(
                old(self)@.done_flags(sample_views(samples@)),
                old(self)@.seqs.len(),
            ),
    {
        let ghost v = self@;
        let ghost sv = sample_views(samples@);
        let n: usize = self.seqs.len();
        let max_seq: usize = self.model.max_seq_len();
        let mut outputs: Vec<(SeqId, u32)> = Vec::new();
        let mut materialized: Vec<usize> = Vec::new();
        let mut flags: Vec<bool> = Vec::new();
        let mut prefilled: Vec<bool> = Vec::new();
        let is_paged: bool = self.paged.is_some();
        let mut i: usize = 0;
        while i < n
            invariant
                v.wf(),
                n == v.seqs.len() == self.seqs.len(),
                i <= n,
                max_seq == v.max_seq(),
                is_paged == (v.paged is Some),
                plan.spans@ == v.spans(),
                sv == sample_views(samples@),
                samples.len() == v.rows().len(),
                self@ == (EngineView { seqs: seq_views(self.seqs@), ..v }),
                forall|k: int| 0 <= k < n ==> (#[trigger] self.seqs[k]).wf(max_seq as int),
                forall|k: int| i <= k < n ==> (#[trigger] self.seqs[k])@ == v.seqs[k],
                forall|k: int| 0 <= k < i ==> (#[trigger] self.seqs[k])@ == v.advanced(sv, k),
                outputs@ == v.outputs(sv, i as nat),
                materialized@ == v.materialized(i as nat),
                flags@ == v.done_flags(sv).take(i as int),
                prefilled@ == Seq::new(i as nat, |k: int| v.prefilled(k)),
            decreases n - i,
        {
            let span = plan.spans[i];
            proof {
                lemma_spans(v, i as int);
                assert(span == v.span(i as int));
                assert(self.seqs[i as int]@ == v.seqs[i as int]);
            }
            let (output, done) = apply_span(
                &mut self.seqs[i],
                &span,
                samples,
                max_seq,
                Ghost(v),
                Ghost(i as int),
            );
            let filled: bool = output.is_some() && span.prefill;
            if let Some(token) = output {
                outputs.push((self.seqs[i].id, token));
            }
            if filled && is_paged {
                materialized.push(i);
            }
            flags.push(done);
            prefilled.push(filled);
            i = i + 1;
            proof {
                assert(self@.seqs =~= seq_views(self.seqs@));
                assert(flags@ =~= v.done_flags(sv).take(i as int));
                assert(prefilled@ =~= Seq::new(i as nat, |k: int| v.prefilled(k)));
            }
        }
        proof {
            assert(seq_views(self.seqs@) =~= v.advanced_seqs(sv));
            assert(v.done_flags(sv).take(i as int) =~= v.done_flags(sv));
        }
        if let Some(mut pg) = self.paged.take() {
            let ghost p = pg@;
            mark_registered(&mut pg.entries, &prefilled);
            assert(pg@ == v.registered()->0) by {
                assert(pg@.entries =~= v.registered()->0.entries);
            }
            self.paged = Some(pg);
        }
        proof {
            lemma_stepped_wf(v, sv);
        }
        let done = marked_slots(&flags);
        StepEnd { outputs, materialized, done }
    }
}

/// Applies what was sampled for the rows of one sequence: the token it yields, if it does, and
/// whether it is done.
fn apply_span(
    seq: &mut SeqState,
    span: &Span,
    samples: &Vec<Sample>,
    max_seq: usize,
    Ghost(v): Ghost<EngineView>,
    Ghost(i): Ghost<int>,
) -> (r: (Option<u32>, bool))
    requires
        v.wf(),
        0 <= i < v.seqs.len(),
        max_seq == v.max_seq(),
        samples.len() == v.rows().len(),
        *span == v.span(i),
        old(seq)@ == v.seqs[i],
        old(seq).wf(max_seq as int),
    ensures
        final(seq).wf(max_seq as int),
        final(seq)@ == v.advanced(sample_views(samples@), i),
        r.0 == if v.produces(i) {
            Some(
                sample_views(samples@)[v.row_start(i) + v.rows_of(i) - 1].token,
            )
        } else {
            None
        },
        r.1 == v.done(sample_views(samples@), i),
{
    let ghost sv = sample_views(samples@);
    proof {
        lemma_spans(v, i);
    }
    let mut token: Option<u32> = None;
    let mut complete: bool = false;
    if span.count > 0 {
        let row: usize = span.start + span.count - 1;
        assert(sv[row as int] == samples[row as int]@);
        if seq.advance(span.count, &samples[row], max_seq) {
            token = Some(samples[row].token);
            complete = seq.is_complete();
        }
    }
    let full: bool = seq.prompt.len() == 0 && seq.len >= max_seq;
    (token, complete || full)
}

/// Marks the entries of completed prompts as reusable.
fn mark_registered(entries: &mut Vec<PagedEntry>, prefilled: &Vec<bool>)
    requires
        old(entries).len() == prefilled.len(),
    ensures
        final(entries).len() == old(entries).len(),
        forall|i: int|
            0 <= i < final(entries).len() ==> (#[trigger] final(entries)[i])@ == if prefilled[i] {
                EntryView { registered: true, ..old(entries)[i]@ }
            } else {
                old(entries)[i]@
            },
{
    let mut k: usize = 0;
    while k < entries.len()
        invariant
            k <= entries.len(),
            entries.len() == prefilled.len(),
            entries.len() == old(entries).len(),
            forall|i: int|
                0 <= i < k ==> (#[trigger] entries[i])@ == if prefilled[i] {
                    EntryView { registered: true, ..old(entries)[i]@ }
                } else {
                    old(entries)[i]@
                },
            forall|i: int| k <= i < entries.len() ==> (#[trigger] entries[i]) == old(entries)[i],
        decreases entries.len() - k,
    {
        if prefilled[k] {
            let e = &mut entries[k];
            e.registered = true;
        }
        k = k + 1;
    }
}

/// A step keeps the engine well-formed.
pub proof fn lemma_stepped_wf(v: EngineView, samples: Seq<SampleView>)
    requires
        v.wf(),
    ensures
        v.stepped(samples).wf(),
{
    let w = v.stepped(samples);
    assert forall|i: int| 0 <= i < w.seqs.len() implies (#[trigger] w.seqs[i]).wf(w.max_seq())
        && w.seqs[i].id == v.seqs[i].id by {
        lemma_spans(v, i);
        crate::sequence::lemma_advanced_wf(
            v.seqs[i],
            v.rows_of(i),
            samples[v.row_start(i) + v.rows_of(i) - 1],
            v.max_seq(),
        );
    }
}

/// The marked slots, highest first.
fn marked_slots(flags: &Vec<bool>) -> (slots: Vec<usize>)
    ensures
        slots@ == marked(flags@, flags@.len()),
{
    let mut slots: Vec<usize> = Vec::new();
    let mut k: usize = flags.len();
    assert(slots@ + marked(flags@, k as nat) =~= marked(flags@, flags@.len()));
    while k > 0
        invariant
            k <= flags.len(),
            slots@ + marked(flags@, k as nat) == marked(flags@, flags@.len()),
        decreases k,
    {
        k = k - 1;
        if flags[k] {
            slots.push(k);
            assert(slots@ + marked(flags@, k as nat) =~= slots@.drop_last() + (seq![k] + marked(
                flags@,
                k as nat,
            )));
        }
    }
    assert(slots@ + marked(flags@, 0) =~= slots@);
    slots
}

/// The result of moving the tables above `slot` down by one: the block-table entries to upload.
fn compact_tables(model: &mut BatchedModel, tables: &Vec<Vec<u32>>, slot: usize) -> (uploads: Vec<
    (usize, usize),
>)
    requires
        old(model).wf(),
        old(model)@.paged,
        slot < tables.len() <= old(model)@.batch,
        forall|i: int|
            0 <= i < tables.len() ==> table_ok(old(model)@, #[trigger] nested(tables@)[i]),
        crate::engine_model::installed(old(model)@, nested(tables@)),
    ensures
        final(model).wf(),
        final(model)@ == shifted(
            old(model)@,
            nested(tables@),
            slot as int,
            tables.len() as int,
        ),
        uploads@ == Seq::new(
            (tables.len() - 1 - slot) as nat,
            |k: int|
                (
                    ((slot + k) * old(model)@.max_pages) as usize,
                    ((slot + k + 1) * old(model)@.max_pages) as usize,
                ),
        ),
{
    let ghost m = model@;
    let ghost t = nested(tables@);
    let mut uploads: Vec<(usize, usize)> = Vec::new();
    let mut i: usize = slot + 1;
    while i < tables.len()
        invariant
            m.wf(),
            m.paged,
            slot < i <= tables.len() <= m.batch,
            t == nested(tables@),
            forall|k: int| 0 <= k < tables.len() ==> table_ok(m, #[trigger] t[k]),
            crate::engine_model::installed(m, t),
            model.wf(),
            model@ == shifted(m, t, slot as int, i as int),
            uploads@ == Seq::new(
                (i - 1 - slot) as nat,
                |k: int|
                    (
                        ((slot + k) * m.max_pages) as usize,
                        ((slot + k + 1) * m.max_pages) as usize,
                    ),
            ),
        decreases tables.len() - i,
    {
        proof {
            lemma_shifted(m, t, slot as int, i as int);
            assert(t[i as int] == tables[i as int]@);
            assert(table_ok(m, t[i as int]));
        }
        if let Ok(range) = model.set_block_table(i - 1, tables[i].as_slice()) {
            uploads.push(range);
        }
        i = i + 1;
        assert(uploads@ =~= Seq::new(
            (i - 1 - slot) as nat,
            |k: int|
                (
                    ((slot + k) * m.max_pages) as usize,
                    ((slot + k + 1) * m.max_pages) as usize,
                ),
        ));
    }
    uploads
}

/// The pages of a table behind its first `content` pages.
fn pages_behind(table: &Vec<u32>, content: usize) -> (pages: Vec<u32>)
    ensures
        pages@ == if content <= table.len() {
            table@.skip(content as int)
        } else {
            Seq::empty()
        },
{
    let mut pages: Vec<u32> = Vec::new();
    let mut i: usize = content;
    while i < table.len()
        invariant
            content <= i,
            content <= table.len() ==> i <= table.len() && pages@ == table@.subrange(
                content as int,
                i as int,
            ),
            content > table.len() ==> pages@.len() == 0,
        decreases table.len() - i,
    {
        pages.push(table[i]);
        i = i + 1;
        assert(pages@ =~= table@.subrange(content as int, i as int));
    }
    proof {
        if content <= table.len() {
            assert(pages@ =~= table@.skip(content as int));
        } else {
            assert(pages@ =~= Seq::empty());
        }
    }
    pages
}

impl EngineView {
    /// The pages that the sequence in `slot` gives back at once: those behind its content.
    pub open spec fn freed(self, slot: int) -> Seq<u32> {
        match self.paged {
            Some(p) => {
                let table = p.tables[slot];
                let content = p.entries[slot].chain.len();
                if content <= table.len() {
                    table.skip(content as int)
                } else {
                    Seq::empty()
                }
            },
            None => Seq::empty(),
        }
    }

    /// An anchor is saved when the sequence in `slot` finishes: reuse is on, some token was
    /// consumed, and the model supports anchors.
    pub open spec fn leaves_anchor(self, slot: int) -> bool {
        &&& self.save_anchors
        &&& self.paged is None
        &&& self.seqs[slot].len > 0
        &&& !self.model.gdn()
    }
}

impl ContinuousModel {
    /// The anchor of a finished sequence. It covers the positions whose KV is computed: the
    /// last sampled token was not fed, and belongs to none of them.
    fn anchor_of(&self, slot: usize) -> (anchor: Option<SavedAnchor>)
        requires
            self.wf(),
            slot < self@.seqs.len(),
        ensures
            match anchor {
                Some(a) => self@.leaves_anchor(slot as int) && a.covers(self@, slot),
                None => !self@.leaves_anchor(slot as int),
            },
    {
        let ghost s = self@.seqs[slot as int];
        assert(s == self.seqs[slot as int]@);
        assert(s.wf(self@.max_seq()));
        if self.paged.is_some() || !self.save_anchors {
            return None;
        }
        let len: usize = self.seqs[slot].len;
        if len == 0 {
            return None;
        }
        match self.model.save_anchor(slot, len, len - 1) {
            Ok(reads) => {
                let tokens = first_tokens(&self.seqs[slot].all_tokens, len);
                Some(SavedAnchor { tokens, reads })
            },
            Err(_) => None,
        }
    }

    /// The copies that move the sequences above `slot` down by one.
    fn compaction_moves(&self, slot: usize) -> (moves: Vec<Vec<Move>>)
        requires
            self.wf(),
            slot < self@.seqs.len(),
        ensures
            nested(moves@) == Seq::new(
                (self@.seqs.len() - 1 - slot) as nat,
                |k: int| self@.move_down(slot + 1 + k),
            ),
    {
        let ghost v = self@;
        let mut moves: Vec<Vec<Move>> = Vec::new();
        let mut i: usize = slot + 1;
        assert(nested(moves@) =~= Seq::new(0nat, |k: int| v.move_down(slot + 1 + k)));
        while i < self.seqs.len()
            invariant
                self.wf(),
                v == self@,
                slot < i <= self.seqs.len(),
                v.seqs.len() == self.seqs.len(),
                nested(moves@) == Seq::new(
                    (i - 1 - slot) as nat,
                    |k: int| v.move_down(slot + 1 + k),
                ),
            decreases self.seqs.len() - i,
        {
            proof {
                assert(v.seqs[i as int] == self.seqs[i as int]@);
                assert(v.seqs[i as int].wf(v.max_seq()));
            }
            let ghost before = moves@;
            let m = self.model.copy_seq_kv(i, i - 1, self.seqs[i].len);
            assert(m@ =~= v.move_down(i as int));
            moves.push(m);
            i = i + 1;
            assert(nested(moves@) =~= nested(before).push(m@));
            assert(nested(moves@) =~= Seq::new(
                (i - 1 - slot) as nat,
                |k: int| v.move_down(slot + 1 + k),
            ));
        }
        moves
    }

    /// Ends the sequence in `slot`: its output is kept until acknowledged, its slot is freed,
    /// and the higher sequences move down. Outside paged mode their KV is copied; in paged
    /// mode their block tables move, the pages stay where they are, and the content remains
    /// reusable.
    pub fn finish(&mut self, slot: usize) -> (work: FinishWork)
        requires
            old(self).wf(),
            slot < old(self)@.seqs.len(),
        ensures
            final(self).wf(),
            final(self)@ == old(self)@.without(slot as int),
            match work.anchor {
                Some(a) => old(self)@.leaves_anchor(slot as int) && a.covers(old(self)@, slot),
                None => !old(self)@.leaves_anchor(slot as int),
            },
            work.freed@ == old(self)@.freed(slot as int),
            match old(self)@.paged {
                Some(p) => {
                    &&& work.moves@.len() == 0
                    &&& work.uploads@ == Seq::new(
                        (old(self)@.seqs.len() - 1 - slot) as nat,
                        |k: int|
                            (
                                ((slot + k) * old(self)@.model.max_pages) as usize,
                                ((slot + k + 1) * old(self)@.model.max_pages) as usize,
                            ),
                    )
                },
                None => {
                    &&& work.uploads@.len() == 0
                    &&& nested(work.moves@) == Seq::new(
                        (old(self)@.seqs.len() - 1 - slot) as nat,
                        |k: int| old(self)@.move_down(slot + 1 + k),
                    )
                },
            },
    {
        let ghost v = self@;
        let anchor = self.anchor_of(slot);
        let mut freed: Vec<u32> = Vec::new();
        let mut uploads: Vec<(usize, usize)> = Vec::new();
        let mut moves: Vec<Vec<Move>> = Vec::new();
        proof {
            lemma_without_wf(v, slot as int);
        }
        if self.paged.is_none() {
            moves = self.compaction_moves(slot);
        }
        if let Some(mut pg) = self.paged.take() {
            let ghost p = pg@;
            proof {
                assert(p.tables[slot as int] == pg.tables[slot as int]@);
                assert(p.entries[slot as int] == pg.entries[slot as int]@);
                lemma_shifted(v.model, p.tables, slot as int, p.tables.len() as int);
            }
            freed = pages_behind(&pg.tables[slot], pg.entries[slot].chain.len());
            uploads = compact_tables(&mut self.model, &pg.tables, slot);
            let _ = pg.tables.remove(slot);
            let entry = pg.entries.remove(slot);
            pg.retired.push(entry);
            assert(pg@.tables =~= p.tables.remove(slot as int));
            assert(pg@.entries =~= p.entries.remove(slot as int));
            assert(pg@.retired =~= p.retired.push(p.entries[slot as int]));
            self.paged = Some(pg);
        }
        let ghost all = self.seqs@;
        let s = self.seqs.remove(slot);
        assert(s@ == v.seqs[slot as int]);
        let stopped: bool = s.is_stopped();
        let f = FinishedSeq {
            id: s.id,
            generated: s.generated,
            logprobs: s.logprobs,
            top_logprobs: s.top_logprobs,
            stopped,
        };
        let ghost fv = f@;
        self.finished.push(f);
        proof {
            assert(self@.seqs =~= v.seqs.remove(slot as int));
            assert(self@.finished =~= v.finished.push(fv));
            assert(freed@ =~= v.freed(slot as int));
            assert(self@.max_seq() == v.max_seq());
            assert forall|i: int| 0 <= i < self.seqs.len() implies (
            #[trigger] self.seqs[i]).wf(self@.max_seq()) by {
                assert(self.seqs[i] == all[if i < slot {
                    i
                } else {
                    i + 1
                }]);
            }
        }
        FinishWork { anchor, freed, uploads, moves }
    }

    /// Whether the record of retired requests is over its cap, four per slot.
    pub fn over_retired_cap(&self) -> (b: bool)
        requires
            self.wf(),
        ensures
            b == match self@.paged {
                Some(p) => p.retired.len() > self@.capacity * 4,
                None => false,
            },
    {
        let cap: usize = self.capacity;
        match &self.paged {
            Some(pg) => pg.retired.len() / 4 >= cap && !(pg.retired.len() / 4 == cap
                && pg.retired.len() % 4 == 0),
            None => false,
        }
    }

    /// Evicts the oldest retired request whose pages no active sequence uses, and returns its
    /// content keys. `pages` holds the page registered under each key of each retired request.
    pub fn evict_one_retired(&mut self, pages: &Vec<Vec<Option<u32>>>) -> (evicted: Option<
        Vec<String>,
    >)
        requires
            old(self).wf(),
            old(self)@.paged matches Some(p) && pages.len() == p.retired.len(),
        ensures
            final(self).wf(),
            ({
                let p = old(self)@.paged->0;
                let k = crate::page_reuse::first_evictable(p.tables, nested(pages@), 0);
                match evicted {
                    Some(chain) => {
                        &&& k is Some
                        &&& chain@ == p.retired[k->0].chain
                        &&& final(self)@ == (EngineView {
                            paged: Some(PagedView { retired: p.retired.remove(k->0), ..p }),
                            ..old(self)@
                        })
                    },
                    None => k is None && final(self)@ == old(self)@,
                }
            }),
    {
        match self.paged.take() {
            Some(mut pg) => {
                let evicted = pg.evict_one_retired(pages);
                self.paged = Some(pg);
                evicted
            },
            None => None,
        }
    }

    /// The content keys of the retired requests, oldest first.
    pub fn retired(&self) -> (retired: Vec<&Vec<String>>)
        requires
            self.wf(),
        ensures
            match self@.paged {
                Some(p) => retired.len() == p.retired.len() && forall|i: int|
                    0 <= i < retired.len() ==> (#[trigger] retired[i])@ == p.retired[i].chain,
                None => retired.len() == 0,
            },
    {
        let mut list: Vec<&Vec<String>> = Vec::new();
        if let Some(pg) = &self.paged {
            let mut i: usize = 0;
            while i < pg.retired.len()
                invariant
                    i <= pg.retired.len(),
                    list.len() == i,
                    forall|k: int| 0 <= k < i ==> (#[trigger] list[k])@ == pg@.retired[k].chain,
                decreases pg.retired.len() - i,
            {
                list.push(&pg.retired[i].chain);
                i = i + 1;
            }
        }
        list
    }

    /// The block table and the content keys of an active sequence in paged mode.
    pub fn slot_content(&self, slot: usize) -> (content: Option<(&Vec<u32>, &Vec<String>)>)
        requires
            self.wf(),
            slot < self@.seqs.len(),
        ensures
            match content {
                Some((table, chain)) => self@.paged matches Some(p) && table@
                    == p.tables[slot as int] && chain@ == p.entries[slot as int].chain,
                None => self@.paged is None,
            },
    {
        match &self.paged {
            Some(pg) => {
                assert(pg@.tables[slot as int] == pg.tables[slot as int]@);
                assert(pg@.entries[slot as int] == pg.entries[slot as int]@);
                Some((&pg.tables[slot], &pg.entries[slot].chain))
            },
            None => None,
        }
    }
}

/// The finished output with `id`, if it is there.
pub open spec fn find_finished(finished: Seq<FinishedView>, id: SeqId, i: nat) -> Option<
    FinishedView,
>
    decreases finished.len() - i,
{
    if i >= finished.len() {
        None
    } else if finished[i as int].id == id {
        Some(finished[i as int])
    } else {
        find_finished(finished, id, i + 1)
    }
}

/// The active sequence with `id`, if there is one.
pub open spec fn find_active(seqs: Seq<SeqView>, id: SeqId, i: nat) -> Option<SeqView>
    decreases seqs.len() - i,
{
    if i >= seqs.len() {
        None
    } else if seqs[i as int].id == id {
        Some(seqs[i as int])
    } else {
        find_active(seqs, id, i + 1)
    }
}

fn copy_lists(src: &Vec<Vec<(u32, F32Bits)>>) -> (dst: Vec<Vec<(u32, F32Bits)>>)
    ensures
        nested(dst@) == nested(src@),
{
    let mut dst: Vec<Vec<(u32, F32Bits)>> = Vec::new();
    let mut i: usize = 0;
    while i < src.len()
        invariant
            i <= src.len(),
            dst.len() == i,
            forall|k: int| 0 <= k < i ==> (#[trigger] dst[k])@ == src[k]@,
        decreases src.len() - i,
    {
        dst.push(copy_pairs(&src[i]));
        i = i + 1;
    }
    assert(nested(dst@) =~= nested(src@));
    dst
}

impl ContinuousModel {
    fn finished_index(&self, id: SeqId) -> (r: Option<usize>)
        ensures
            match r {
                Some(i) => i < self.finished.len() && find_finished(self@.finished, id, 0) == Some(
                    self.finished[i as int]@,
                ),
                None => find_finished(self@.finished, id, 0) is None,
            },
    {
        let ghost f = self@.finished;
        let mut i: usize = 0;
        while i < self.finished.len()
            invariant
                i <= self.finished.len(),
                f == self@.finished,
                find_finished(f, id, 0) == find_finished(f, id, i as nat),
            decreases self.finished.len() - i,
        {
            assert(f[i as int] == self.finished[i as int]@);
            if self.finished[i].id == id {
                return Some(i);
            }
            i = i + 1;
        }
        None
    }

    fn active_index(&self, id: SeqId) -> (r: Option<usize>)
        ensures
            match r {
                Some(i) => i < self.seqs.len() && find_active(self@.seqs, id, 0) == Some(
                    self.seqs[i as int]@,
                ),
                None => find_active(self@.seqs, id, 0) is None,
            },
    {
        let ghost f = self@.seqs;
        let mut i: usize = 0;
        while i < self.seqs.len()
            invariant
                i <= self.seqs.len(),
                f == self@.seqs,
                find_active(f, id, 0) == find_active(f, id, i as nat),
            decreases self.seqs.len() - i,
        {
            assert(f[i as int] == self.seqs[i as int]@);
            if self.seqs[i].id == id {
                return Some(i);
            }
            i = i + 1;
        }
        None
    }

    /// Maximum concurrent sequences.
    #[must_use]
    pub fn capacity(&self) -> (n: usize)
        ensures
            n == self@.capacity,
    {
        self.capacity
    }

    /// Sequences still being processed (not yet finished).
    #[must_use]
    pub fn active(&self) -> (n: usize)
        ensures
            n == self@.seqs.len(),
    {
        self.seqs.len()
    }

    /// True when every sequence has finished.
    #[must_use]
    pub fn all_done(&self) -> (b: bool)
        ensures
            b == (self@.seqs.len() == 0),
    {
        self.seqs.len() == 0
    }

    /// Whether the sequence with `id` has finished (or is unknown).
    #[must_use]
    pub fn is_done(&self, id: SeqId) -> (b: bool)
        ensures
            b == (find_finished(self@.finished, id, 0) is Some || find_active(
                self@.seqs,
                id,
                0,
            ) is None),
    {
        if self.finished_index(id).is_some() {
            return true;
        }
        self.active_index(id).is_none()
    }

    /// Generated tokens of the sequence with `id` (empty if unknown).
    #[must_use]
    pub fn generated(&self, id: SeqId) -> (tokens: Vec<u32>)
        ensures
            tokens@ == match find_finished(self@.finished, id, 0) {
                Some(f) => f.generated,
                None => match find_active(self@.seqs, id, 0) {
                    Some(s) => s.generated,
                    None => Seq::empty(),
                },
            },
    {
        if let Some(i) = self.finished_index(id) {
            return copy_tokens(self.finished[i].generated.as_slice());
        }
        match self.active_index(id) {
            Some(i) => copy_tokens(self.seqs[i].generated.as_slice()),
            None => Vec::new(),
        }
    }

    /// Log-probability of each generated token, empty when unknown.
    #[must_use]
    pub fn generated_logprobs(&self, id: SeqId) -> (logprobs: Vec<F32Bits>)
        ensures
            logprobs@ == match find_finished(self@.finished, id, 0) {
                Some(f) => f.logprobs,
                None => match find_active(self@.seqs, id, 0) {
                    Some(s) => s.logprobs,
                    None => Seq::empty(),
                },
            },
    {
        if let Some(i) = self.finished_index(id) {
            return copy_tokens(self.finished[i].logprobs.as_slice());
        }
        match self.active_index(id) {
            Some(i) => copy_tokens(self.seqs[i].logprobs.as_slice()),
            None => Vec::new(),
        }
    }

    /// Most likely tokens at each generated position, empty when unknown.
    #[must_use]
    pub fn generated_top_logprobs(&self, id: SeqId) -> (lists: Vec<Vec<(u32, F32Bits)>>)
        ensures
            nested(lists@) == match find_finished(self@.finished, id, 0) {
                Some(f) => f.top_logprobs,
                None => match find_active(self@.seqs, id, 0) {
                    Some(s) => s.top_logprobs,
                    None => Seq::empty(),
                },
            },
    {
        if let Some(i) = self.finished_index(id) {
            return copy_lists(&self.finished[i].top_logprobs);
        }
        match self.active_index(id) {
            Some(i) => copy_lists(&self.seqs[i].top_logprobs),
            None => {
                let none: Vec<Vec<(u32, F32Bits)>> = Vec::new();
                assert(nested(none@) =~= Seq::empty());
                none
            },
        }
    }

    /// Why a finished sequence ended: `"stop"` when its last token was the end token or
    /// completed a stop sequence, `"length"` otherwise. Unknown and active sequences report
    /// `"length"`.
    #[must_use]
    pub fn finish_reason(&self, id: SeqId) -> (reason: &'static str)
        ensures
            reason@ == if exists|i: int|
                0 <= i < self@.finished.len() && (#[trigger] self@.finished[i]).id == id
                    && self@.finished[i].stopped {
                "stop"@
            } else {
                "length"@
            },
    {
        let ghost f = self@.finished;
        let mut i: usize = 0;
        while i < self.finished.len()
            invariant
                i <= self.finished.len(),
                f == self@.finished,
                forall|k: int| 0 <= k < i ==> !((#[trigger] f[k]).id == id && f[k].stopped),
            decreases self.finished.len() - i,
        {
            assert(f[i as int] == self.finished[i as int]@);
            if self.finished[i].id == id && self.finished[i].stopped {
                return "stop";
            }
            i = i + 1;
        }
        "length"
    }

    /// Forgets a finished sequence.
    pub fn ack(&mut self, id: SeqId)
        requires
            old(self).wf(),
        ensures
            final(self).wf(),
            final(self)@ == (EngineView {
                finished: old(self)@.finished.filter(|f: FinishedView| f.id != id),
                ..old(self)@
            }),
    {
        let ghost v = self@;
        let ghost keep = |f: FinishedView| f.id != id;
        let ghost mut k: int = 0;
        let mut i: usize = 0;
        assert(v.finished.take(0).filter(keep) =~= Seq::empty()) by {
            reveal(Seq::filter);
        }
        while i < self.finished.len()
            invariant
                v.wf(),
                keep == (|f: FinishedView| f.id != id),
                0 <= k <= v.finished.len(),
                i <= self.finished.len(),
                self.finished.len() - i == v.finished.len() - k,
                self@ == (EngineView { finished: finished_views(self.finished@), ..v }),
                self.seqs == old(self).seqs,
                finished_views(self.finished@).take(i as int) == v.finished.take(k).filter(keep),
                finished_views(self.finished@).skip(i as int) == v.finished.skip(k),
            decreases self.finished.len() - i,
        {
            let ghost now = finished_views(self.finished@);
            proof {
                assert(now[i as int] == self.finished[i as int]@);
                assert(now.skip(i as int)[0] == v.finished.skip(k)[0]);
                assert(v.finished.take(k + 1).drop_last() =~= v.finished.take(k));
                assert(v.finished.take(k + 1).last() == v.finished[k]);
                reveal(Seq::filter);
            }
            if self.finished[i].id == id {
                let _ = self.finished.remove(i);
                proof {
                    let next = finished_views(self.finished@);
                    assert(next =~= now.remove(i as int));
                    assert(next.take(i as int) =~= now.take(i as int));
                    assert(next.skip(i as int) =~= now.skip(i as int).skip(1));
                    assert(v.finished.skip(k + 1) =~= v.finished.skip(k).skip(1));
                }
            } else {
                proof {
                    assert(now.take(i + 1) =~= now.take(i as int).push(now[i as int]));
                    assert(now.skip(i + 1) =~= now.skip(i as int).skip(1));
                    assert(v.finished.skip(k + 1) =~= v.finished.skip(k).skip(1));
                }
                i = i + 1;
            }
            proof {
                k = k + 1;
            }
        }
        proof {
            assert(v.finished.take(k) =~= v.finished);
            assert(finished_views(self.finished@).take(i as int) =~= finished_views(
                self.finished@,
            ));
            lemma_kept_ids(v, id);
        }
    }

    /// Cross-request prefix-reuse statistics of a paged engine, else `None`.
    #[must_use]
    pub fn paged_reuse_stats(&self) -> (stats: Option<PagedReuseStats>)
        ensures
            stats == match self@.paged {
                Some(p) => Some(
                    PagedReuseStats {
                        requests: p.requests,
                        reused_tokens: p.reused_tokens,
                        prompt_tokens: p.prompt_tokens,
                    },
                ),
                None => None,
            },
    {
        match &self.paged {
            Some(pg) => Some(
                PagedReuseStats {
                    requests: pg.requests,
                    reused_tokens: pg.reused_tokens,
                    prompt_tokens: pg.prompt_tokens,
                },
            ),
            None => None,
        }
    }

    /// The batched model.
    pub fn model(&self) -> (m: &BatchedModel)
        requires
            self.wf(),
        ensures
            m@ == self@.model,
            m.wf(),
    {
        &self.model
    }

    fn assemble(model: BatchedModel, save_anchors: bool) -> (e: Self)
        requires
            model.wf(),
        ensures
            e.wf(),
            e@ == EngineView::fresh(model@, model@.rows, model@.batch, save_anchors),
    {
        let capacity: usize = model.batch();
        let prefill_rows: usize = model.row_capacity();
        let tokens_per_page: usize = model.tokens_per_page();
        let paged = if model.is_paged() {
            let pg = PagedEngineState {
                tokens_per_page,
                tables: Vec::new(),
                entries: Vec::new(),
                retired: Vec::new(),
                requests: 0,
                reused_tokens: 0,
                prompt_tokens: 0,
            };
            assert(pg@.tables =~= Seq::empty());
            assert(pg@.entries =~= Seq::empty());
            assert(pg@.retired =~= Seq::empty());
            Some(pg)
        } else {
            None
        };
        let e = ContinuousModel {
            model,
            prefill_rows,
            capacity,
            seqs: Vec::new(),
            finished: Vec::new(),
            next_id: 1,
            save_anchors,
            paged,
        };
        assert(e@.seqs =~= Seq::empty());
        assert(e@.finished =~= Seq::empty());
        e
    }
}

proof fn lemma_kept_ids(v: EngineView, id: SeqId)
    requires
        v.ids_wf(),
    ensures
        (EngineView { finished: v.finished.filter(|f: FinishedView| f.id != id), ..v }).ids_wf(),
{
    let keep = |f: FinishedView| f.id != id;
    let w = v.finished.filter(keep);
    lemma_filter_order(v.finished, keep);
    assert forall|i: int, j: int| 0 <= i < v.seqs.len() && 0 <= j < w.len() implies (
    #[trigger] v.seqs[i]).id != (#[trigger] w[j]).id by {
        let k = choose|k: int| 0 <= k < v.finished.len() && v.finished[k] == w[j];
        assert(v.seqs[i].id != v.finished[k].id);
    }
}

/// Filtering keeps distinct ids distinct and bounded.
proof fn lemma_filter_order(s: Seq<FinishedView>, keep: spec_fn(FinishedView) -> bool)
    requires
        forall|i: int, j: int| 0 <= i < j < s.len() ==> (#[trigger] s[i]).id != (#[trigger] s[j]).id,
    ensures
        ({
            let w = s.filter(keep);
            &&& forall|i: int, j: int|
                0 <= i < j < w.len() ==> (#[trigger] w[i]).id != (#[trigger] w[j]).id
            &&& forall|i: int|
                0 <= i < w.len() ==> exists|k: int|
                    0 <= k < s.len() && #[trigger] s[k] == (#[trigger] w[i])
        }),
    decreases s.len(),
{
    reveal(Seq::filter);
    if s.len() > 0 {
        let front = s.drop_last();
        assert forall|i: int, j: int| 0 <= i < j < front.len() implies (#[trigger] front[i]).id
            != (#[trigger] front[j]).id by {
            assert(s[i].id != s[j].id);
        }
        lemma_filter_order(front, keep);
        let f = front.filter(keep);
        let w = s.filter(keep);
        assert forall|i: int| 0 <= i < w.len() implies exists|k: int|
            0 <= k < s.len() && #[trigger] s[k] == (#[trigger] w[i]) by {
            if i < f.len() {
                assert(w[i] == f[i]);
                let k = choose|k: int| 0 <= k < front.len() && #[trigger] front[k] == f[i];
                assert(s[k] == front[k]);
            } else {
                assert(s[s.len() - 1] == w[i]);
            }
        }
        assert forall|i: int, j: int| 0 <= i < j < w.len() implies (#[trigger] w[i]).id != (
        #[trigger] w[j]).id by {
            if j == f.len() {
                assert(w[i] == f[i]);
                let k = choose|k: int| 0 <= k < front.len() && #[trigger] front[k] == f[i];
                assert(s[k] == front[k]);
                assert(s[k].id != s[s.len() - 1].id);
            } else {
                assert(w[i] == f[i] && w[j] == f[j]);
            }
        }
    }
}

/// Rows of an engine with `capacity` slots: at least one per slot.
pub open spec fn row_capacity(capacity: usize, prefill_rows: usize) -> usize {
    if prefill_rows > capacity {
        prefill_rows
    } else {
        capacity
    }
}

fn larger(a: usize, b: usize) -> (m: usize)
    ensures
        m == row_capacity(b, a),
{
    if a > b {
        a
    } else {
        b
    }
}

impl ContinuousModel {
    /// An engine with `capacity` slots and `prefill_rows` rows per step: longer prompts prefill
    /// in fewer, larger steps.
    pub fn with_prefill_rows(
        cfg: Config,
        w: &ModelLens,
        capacity: usize,
        prefill_rows: usize,
        rotary_product: usize,
    ) -> (r: Result<Self, BatchedError>)
        requires
            build_args(cfg, *w, capacity, row_capacity(capacity, prefill_rows)),
        ensures
            ({
                let rows = row_capacity(capacity, prefill_rows);
                let refused = refusal(None, cfg, capacity, rows);
                match r {
                    Ok(e) => refused is None && e.wf() && e@ == EngineView::fresh(
                        fresh_model(
                            cfg,
                            *w,
                            Storage::Full,
                            capacity,
                            rows,
                            usize::MAX,
                            rotary_product,
                        ),
                        rows,
                        capacity,
                        false,
                    ),
                    Err(e) => refused == Some(e),
                }
            }),
    {
        let rows: usize = larger(prefill_rows, capacity);
        let model = BatchedModel::with_rows(
            cfg,
            w,
            capacity,
            rows,
            rotary_product,
        )?;
        Ok(ContinuousModel::assemble(model, false))
    }

    /// An engine with `capacity` concurrent sequence slots.
    pub fn new(cfg: Config, w: &ModelLens, capacity: usize, rotary_product: usize) -> (r: Result<
        Self,
        BatchedError,
    >)
        requires
            build_args(cfg, *w, capacity, capacity),
        ensures
            match r {
                Ok(e) => refusal(None, cfg, capacity, capacity) is None && e.wf() && e@
                    == EngineView::fresh(
                    fresh_model(
                        cfg,
                        *w,
                        Storage::Full,
                        capacity,
                        capacity,
                        usize::MAX,
                        rotary_product,
                    ),
                    capacity,
                    capacity,
                    false,
                ),
                Err(e) => refusal(None, cfg, capacity, capacity) == Some(e),
            },
    {
        ContinuousModel::with_prefill_rows(cfg, w, capacity, capacity, rotary_product)
    }

    /// An engine from packed int4 weights.
    pub fn with_prefill_rows_q4(
        cfg: Config,
        w: &ModelLens,
        capacity: usize,
        prefill_rows: usize,
        rotary_product: usize,
    ) -> (r: Result<Self, BatchedError>)
        requires
            build_args(cfg, *w, capacity, row_capacity(capacity, prefill_rows)),
        ensures
            ({
                let rows = row_capacity(capacity, prefill_rows);
                let refused = refusal(needs_half(cfg), cfg, capacity, rows);
                match r {
                    Ok(e) => refused is None && e.wf() && e@ == EngineView::fresh(
                        fresh_model(
                            cfg,
                            *w,
                            Storage::Q4 { experts_on_device: false, dense_on_device: false },
                            capacity,
                            rows,
                            usize::MAX,
                            rotary_product,
                        ),
                        rows,
                        capacity,
                        false,
                    ),
                    Err(e) => refused == Some(e),
                }
            }),
    {
        let rows: usize = larger(prefill_rows, capacity);
        let model = BatchedModel::with_rows_q4(
            cfg,
            w,
            capacity,
            rows,
            rotary_product,
        )?;
        Ok(ContinuousModel::assemble(model, false))
    }

    /// An engine from E4M3 weights.
    pub fn with_prefill_rows_fp8(
        cfg: Config,
        w: &ModelLens,
        capacity: usize,
        prefill_rows: usize,
        rotary_product: usize,
    ) -> (r: Result<Self, BatchedError>)
        requires
            build_args(cfg, *w, capacity, row_capacity(capacity, prefill_rows)),
        ensures
            ({
                let rows = row_capacity(capacity, prefill_rows);
                let refused = refusal(needs_half(cfg), cfg, capacity, rows);
                match r {
                    Ok(e) => refused is None && e.wf() && e@ == EngineView::fresh(
                        fresh_model(
                            cfg,
                            *w,
                            Storage::Fp8,
                            capacity,
                            rows,
                            usize::MAX,
                            rotary_product,
                        ),
                        rows,
                        capacity,
                        false,
                    ),
                    Err(e) => refused == Some(e),
                }
            }),
    {
        let rows: usize = larger(prefill_rows, capacity);
        let model = BatchedModel::with_rows_fp8(
            cfg,
            w,
            capacity,
            rows,
            rotary_product,
        )?;
        Ok(ContinuousModel::assemble(model, false))
    }

    /// An engine whose experts stay in host memory beyond `expert_slots`.
    pub fn with_prefill_rows_offload(
        cfg: Config,
        w: &ModelLens,
        capacity: usize,
        prefill_rows: usize,
        expert_slots: usize,
        rotary_product: usize,
    ) -> (r: Result<Self, BatchedError>)
        requires
            build_args(cfg, *w, capacity, row_capacity(capacity, prefill_rows)),
        ensures
            ({
                let rows = row_capacity(capacity, prefill_rows);
                let refused = refusal(None, cfg, capacity, rows);
                match r {
                    Ok(e) => refused is None && e.wf() && e@ == EngineView::fresh(
                        ModelView {
                            host_weights: true,
                            ..fresh_model(
                                cfg,
                                *w,
                                Storage::Full,
                                capacity,
                                rows,
                                expert_slots,
                                rotary_product,
                            )
                        },
                        rows,
                        capacity,
                        false,
                    ),
                    Err(e) => refused == Some(e),
                }
            }),
    {
        let rows: usize = larger(prefill_rows, capacity);
        let model = BatchedModel::with_expert_slots(
            cfg,
            w,
            capacity,
            rows,
            expert_slots,
            rotary_product,
        )?;
        Ok(ContinuousModel::assemble(model, false))
    }

    /// An engine that leaves an anchor behind every finished sequence, from which a later
    /// sequence with the same prefix continues.
    pub fn with_state_reuse(
        cfg: Config,
        w: &ModelLens,
        capacity: usize,
        rotary_product: usize,
    ) -> (r: Result<Self, BatchedError>)
        requires
            build_args(cfg, *w, capacity, capacity),
        ensures
            match r {
                Ok(e) => refusal(None, cfg, capacity, capacity) is None && e.wf() && e@
                    == EngineView::fresh(
                    fresh_model(
                        cfg,
                        *w,
                        Storage::Full,
                        capacity,
                        capacity,
                        usize::MAX,
                        rotary_product,
                    ),
                    capacity,
                    capacity,
                    true,
                ),
                Err(e) => refusal(None, cfg, capacity, capacity) == Some(e),
            },
    {
        let model = BatchedModel::with_rows(cfg, w, capacity, capacity, rotary_product)?;
        Ok(ContinuousModel::assemble(model, true))
    }

    /// A paged engine: requests that share a prefix share its pages, and the later one computes
    /// only what follows. Pages are shared only once they hold their KV.
    pub fn with_paged_prefill_rows(
        cfg: Config,
        w: &ModelLens,
        capacity: usize,
        prefill_rows: usize,
        tokens_per_page: usize,
        rotary_product: usize,
    ) -> (r: Result<Self, BatchedError>)
        requires
            build_args(cfg, *w, capacity, row_capacity(capacity, prefill_rows)),
        ensures
            ({
                let rows = row_capacity(capacity, prefill_rows);
                let refused = paged_refusal(None, cfg, capacity, rows, tokens_per_page);
                match r {
                    Ok(e) => refused is None && e.wf() && e@ == EngineView::fresh(
                        fresh_model(
                            cfg,
                            *w,
                            Storage::Full,
                            capacity,
                            rows,
                            usize::MAX,
                            rotary_product,
                        ).with_pages(tokens_per_page),
                        rows,
                        capacity,
                        false,
                    ),
                    Err(e) => refused == Some(e),
                }
            }),
    {
        let rows: usize = larger(prefill_rows, capacity);
        let model = BatchedModel::with_paged_kv_rows(
            cfg,
            w,
            capacity,
            rows,
            tokens_per_page,
            rotary_product,
        )?;
        Ok(ContinuousModel::assemble(model, false))
    }

    /// A paged engine from packed int4 weights.
    pub fn with_paged_prefill_rows_q4(
        cfg: Config,
        w: &ModelLens,
        capacity: usize,
        prefill_rows: usize,
        tokens_per_page: usize,
        rotary_product: usize,
    ) -> (r: Result<Self, BatchedError>)
        requires
            build_args(cfg, *w, capacity, row_capacity(capacity, prefill_rows)),
        ensures
            ({
                let rows = row_capacity(capacity, prefill_rows);
                let refused = paged_refusal(needs_half(cfg), cfg, capacity, rows, tokens_per_page);
                match r {
                    Ok(e) => refused is None && e.wf() && e@ == EngineView::fresh(
                        fresh_model(
                            cfg,
                            *w,
                            Storage::Q4 { experts_on_device: false, dense_on_device: false },
                            capacity,
                            rows,
                            usize::MAX,
                            rotary_product,
                        ).with_pages(tokens_per_page),
                        rows,
                        capacity,
                        false,
                    ),
                    Err(e) => refused == Some(e),
                }
            }),
    {
        let rows: usize = larger(prefill_rows, capacity);
        let model = BatchedModel::with_paged_kv_rows_q4(
            cfg,
            w,
            capacity,
            rows,
            tokens_per_page,
            rotary_product,
        )?;
        Ok(ContinuousModel::assemble(model, false))
    }

    /// A paged engine from E4M3 weights.
    pub fn with_paged_prefill_rows_fp8(
        cfg: Config,
        w: &ModelLens,
        capacity: usize,
        prefill_rows: usize,
        tokens_per_page: usize,
        rotary_product: usize,
    ) -> (r: Result<Self, BatchedError>)
        requires
            build_args(cfg, *w, capacity, row_capacity(capacity, prefill_rows)),
        ensures
            ({
                let rows = row_capacity(capacity, prefill_rows);
                let refused = paged_refusal(needs_half(cfg), cfg, capacity, rows, tokens_per_page);
                match r {
                    Ok(e) => refused is None && e.wf() && e@ == EngineView::fresh(
                        fresh_model(
                            cfg,
                            *w,
                            Storage::Fp8,
                            capacity,
                            rows,
                            usize::MAX,
                            rotary_product,
                        ).with_pages(tokens_per_page),
                        rows,
                        capacity,
                        false,
                    ),
                    Err(e) => refused == Some(e),
                }
            }),
    {
        let rows: usize = larger(prefill_rows, capacity);
        let model = BatchedModel::with_paged_kv_rows_fp8(
            cfg,
            w,
            capacity,
            rows,
            tokens_per_page,
            rotary_product,
        )?;
        Ok(ContinuousModel::assemble(model, false))
    }
}

} // verus!
