//! The model of the continuous-batching engine: which rows a step runs, what they do to the
//! sequences, and how finished sequences leave.

use vstd::prelude::*;

use crate::batched::first_at_least;
use crate::batched::BatchedError;
use crate::batched::ModelView;
use crate::buffers::Move;
use crate::config::F32Bits;
use crate::device::Buf;
use crate::page_reuse::EntryView;
use crate::page_reuse::PagedView;
use crate::sequence::tally;
use crate::sequence::SampleView;
use crate::sequence::SeqId;
use crate::sequence::SeqView;

verus! {

/// A finished sequence's output.
pub struct FinishedView {
    pub id: SeqId,
    pub generated: Seq<u32>,
    pub logprobs: Seq<F32Bits>,
    pub top_logprobs: Seq<Seq<(u32, F32Bits)>>,
    pub stopped: bool,
}

/// One row of a step.
pub struct RowView {
    pub token: u32,
    pub pos: u32,
    pub slot: u32,
    pub seed: u64,
    /// Occurrence counts for the penalties.
    pub counts: Seq<(u32, u32)>,
    pub bias: Seq<(u32, F32Bits)>,
}

/// The rows of one sequence in a step.
#[derive(Debug, Clone, Copy, PartialEq, Eq, Structural)]
pub struct Span {
    pub start: usize,
    pub count: usize,
    /// The rows are prompt tokens.
    pub prefill: bool,
}

/// The state of the engine. Sequence `i` occupies slot `i`.
pub struct EngineView {
    pub model: ModelView,
    pub prefill_rows: usize,
    pub capacity: usize,
    pub seqs: Seq<SeqView>,
    pub finished: Seq<FinishedView>,
    pub next_id: SeqId,
    pub save_anchors: bool,
    pub paged: Option<PagedView>,
}

/// Why a sequence cannot be added.
#[derive(Debug, Clone, Copy, PartialEq, Eq, Structural)]
pub enum EngineError {
    EmptyPrompt,
    PromptTooLong { len: usize, max_seq_len: usize },
    AtCapacity,
    /// The matching anchor could not be restored.
    Restore(BatchedError),
    /// The page pool has no room.
    PagePlan,
    /// The planned pages do not form a block table.
    BlockTable(BatchedError),
}

impl SeqView {
    /// Rows that the sequence gets when `budget` rows are left: as much of its prompt as fits,
    /// or one decode row. A full sequence gets none.
    pub open spec fn row_count(self, budget: int, max_seq: int) -> int {
        if budget <= 0 {
            0
        } else if self.prompt.len() > 0 {
            vstd::math::min(self.prompt.len() as int, budget)
        } else if self.len >= max_seq {
            0
        } else {
            1
        }
    }

    /// The sequence's `j`-th row.
    pub open spec fn row(self, slot: int, j: int) -> RowView {
        RowView {
            token: if self.prompt.len() > 0 {
                self.prompt[j]
            } else {
                self.first_decode->0
            },
            pos: (self.len + j) as u32,
            slot: slot as u32,
            seed: self.seed,
            counts: if self.prompt.len() > 0 {
                Seq::empty()
            } else {
                tally(self.generated)
            },
            bias: self.logit_bias,
        }
    }

    /// What is kept of a finished sequence.
    pub open spec fn result(self) -> FinishedView {
        FinishedView {
            id: self.id,
            generated: self.generated,
            logprobs: self.logprobs,
            top_logprobs: self.top_logprobs,
            stopped: self.stopped(),
        }
    }
}

/// The rows of the first `n` sequences.
pub open spec fn rows_before(seqs: Seq<SeqView>, budget: int, max_seq: int, n: nat) -> Seq<RowView>
    decreases n,
{
    if n == 0 {
        Seq::empty()
    } else {
        let before = rows_before(seqs, budget, max_seq, (n - 1) as nat);
        let s = seqs[n - 1];
        before + Seq::new(
            s.row_count(budget - before.len(), max_seq) as nat,
            |j: int| s.row(n - 1, j),
        )
    }
}

/// Slots below `n` that `done` marks, highest first.
pub open spec fn marked(done: Seq<bool>, n: nat) -> Seq<usize>
    decreases n,
{
    if n == 0 {
        Seq::empty()
    } else if done[n - 1] {
        seq![(n - 1) as usize] + marked(done, (n - 1) as nat)
    } else {
        marked(done, (n - 1) as nat)
    }
}

/// The page of logical page `l` in a table whose last page is repeated.
pub open spec fn page_at(table: Seq<u32>, l: int) -> u32 {
    if l < table.len() {
        table[l]
    } else {
        table.last()
    }
}

/// The model accepts `table` in any slot.
pub open spec fn table_ok(m: ModelView, table: Seq<u32>) -> bool {
    0 < table.len() <= m.max_pages && first_at_least(table, m.pool_pages(), 0) is None
}

/// The block table of slot `i` is `tables[i]`.
pub open spec fn installed(m: ModelView, tables: Seq<Seq<u32>>) -> bool {
    forall|i: int, l: int|
        0 <= i < tables.len() && 0 <= l < m.max_pages ==> m.tables[i * m.max_pages + l]
            == #[trigger] page_at(tables[i], l) as i32
}

/// The model after the tables of the slots above `slot`, below `n`, each moved down by one.
pub open spec fn shifted(m: ModelView, tables: Seq<Seq<u32>>, slot: int, n: int) -> ModelView
    decreases n,
{
    if n <= slot + 1 || n <= 0 {
        m
    } else {
        let p = shifted(m, tables, slot, n - 1);
        ModelView { tables: p.with_table((n - 2) as usize, tables[n - 1]), ..p }
    }
}

impl EngineView {
    pub open spec fn max_seq(self) -> int {
        self.model.cfg.max_seq_len as int
    }

    /// Ids are handed out once and stay with their sequence.
    pub open spec fn ids_wf(self) -> bool {
        &&& forall|i: int| 0 <= i < self.seqs.len() ==> (#[trigger] self.seqs[i]).id < self.next_id
        &&& forall|i: int|
            0 <= i < self.finished.len() ==> (#[trigger] self.finished[i]).id < self.next_id
        &&& forall|i: int, j: int|
            0 <= i < j < self.seqs.len() ==> (#[trigger] self.seqs[i]).id != (
            #[trigger] self.seqs[j]).id
        &&& forall|i: int, j: int|
            0 <= i < j < self.finished.len() ==> (#[trigger] self.finished[i]).id != (
            #[trigger] self.finished[j]).id
        &&& forall|i: int, j: int|
            0 <= i < self.seqs.len() && 0 <= j < self.finished.len() ==> (
            #[trigger] self.seqs[i]).id != (#[trigger] self.finished[j]).id
    }

    /// Every active sequence has its block table, and the model uses it.
    pub open spec fn pages_wf(self) -> bool {
        match self.paged {
            Some(p) => {
                &&& self.model.paged
                &&& p.tokens_per_page == self.model.tokens_per_page
                &&& p.tables.len() == self.seqs.len()
                &&& p.entries.len() == self.seqs.len()
                &&& forall|i: int|
                    0 <= i < p.tables.len() ==> table_ok(self.model, #[trigger] p.tables[i])
                &&& installed(self.model, p.tables)
                &&& p.reused_tokens <= p.prompt_tokens
            },
            None => !self.model.paged,
        }
    }

    pub open spec fn wf(self) -> bool {
        &&& self.model.wf()
        &&& self.model.rows == self.prefill_rows
        &&& self.model.batch == self.capacity
        &&& self.seqs.len() <= self.capacity
        &&& forall|i: int|
            0 <= i < self.seqs.len() ==> (#[trigger] self.seqs[i]).wf(self.max_seq())
        &&& self.ids_wf()
        &&& self.pages_wf()
    }

    /// An engine without sequences.
    pub open spec fn fresh(
        model: ModelView,
        rows: usize,
        capacity: usize,
        save_anchors: bool,
    ) -> EngineView {
        EngineView {
            model,
            prefill_rows: rows,
            capacity,
            seqs: Seq::empty(),
            finished: Seq::empty(),
            next_id: 1,
            save_anchors,
            paged: if model.paged {
                Some(
                    PagedView {
                        tokens_per_page: model.tokens_per_page,
                        tables: Seq::empty(),
                        entries: Seq::empty(),
                        retired: Seq::empty(),
                        requests: 0,
                        reused_tokens: 0,
                        prompt_tokens: 0,
                    },
                )
            } else {
                None
            },
        }
    }

    /// The rows of the next step.
    pub open spec fn rows(self) -> Seq<RowView> {
        rows_before(self.seqs, self.prefill_rows as int, self.max_seq(), self.seqs.len())
    }

    /// First row of sequence `i` in the next step.
    pub open spec fn row_start(self, i: int) -> int {
        rows_before(self.seqs, self.prefill_rows as int, self.max_seq(), i as nat).len() as int
    }

    /// Rows of sequence `i` in the next step.
    pub open spec fn rows_of(self, i: int) -> int {
        self.seqs[i].row_count(self.prefill_rows - self.row_start(i), self.max_seq())
    }

    pub open spec fn span(self, i: int) -> Span {
        Span {
            start: self.row_start(i) as usize,
            count: self.rows_of(i) as usize,
            prefill: self.rows_of(i) > 0 && self.seqs[i].prompt.len() > 0,
        }
    }

    pub open spec fn spans(self) -> Seq<Span> {
        Seq::new(self.seqs.len(), |i: int| self.span(i))
    }

    /// No row of the next step is a prompt token.
    pub open spec fn decode_only(self) -> bool {
        forall|i: int| 0 <= i < self.seqs.len() ==> !(#[trigger] self.span(i)).prefill
    }

    /// Sequence `i` after the step.
    pub open spec fn advanced(self, samples: Seq<SampleView>, i: int) -> SeqView {
        self.seqs[i].advanced(self.rows_of(i), samples[self.row_start(i) + self.rows_of(i) - 1])
    }

    pub open spec fn advanced_seqs(self, samples: Seq<SampleView>) -> Seq<SeqView> {
        Seq::new(self.seqs.len(), |i: int| self.advanced(samples, i))
    }

    /// Sequence `i` yields a token in the step.
    pub open spec fn produces(self, i: int) -> bool {
        self.seqs[i].produces(self.rows_of(i))
    }

    /// The step completes the prompt of sequence `i`.
    pub open spec fn prefilled(self, i: int) -> bool {
        self.produces(i) && self.seqs[i].prompt.len() > 0
    }

    /// The tokens that the first `n` sequences yield.
    pub open spec fn outputs(self, samples: Seq<SampleView>, n: nat) -> Seq<(SeqId, u32)>
        decreases n,
    {
        if n == 0 {
            Seq::empty()
        } else {
            let rest = self.outputs(samples, (n - 1) as nat);
            if self.produces(n - 1) {
                rest.push(
                    (
                        self.seqs[n - 1].id,
                        samples[self.row_start(n - 1) + self.rows_of(n - 1) - 1].token,
                    ),
                )
            } else {
                rest
            }
        }
    }

    /// The slots below `n` whose pages hold their whole prompt after the step.
    pub open spec fn materialized(self, n: nat) -> Seq<usize>
        decreases n,
    {
        if n == 0 {
            Seq::empty()
        } else {
            let rest = self.materialized((n - 1) as nat);
            if self.paged is Some && self.prefilled(n - 1) {
                rest.push((n - 1) as usize)
            } else {
                rest
            }
        }
    }

    /// The sequence in slot `i` finishes with the step: its output is complete, or its context
    /// is full.
    pub open spec fn done(self, samples: Seq<SampleView>, i: int) -> bool {
        let s = self.advanced(samples, i);
        self.produces(i) && s.complete() || s.full(self.max_seq())
    }

    pub open spec fn done_flags(self, samples: Seq<SampleView>) -> Seq<bool> {
        Seq::new(self.seqs.len(), |i: int| self.done(samples, i))
    }

    /// The registry after the step: completed prompts may be reused from now on.
    pub open spec fn registered(self) -> Option<PagedView> {
        match self.paged {
            Some(p) => Some(
                PagedView {
                    entries: Seq::new(
                        p.entries.len(),
                        |i: int|
                            if self.prefilled(i) {
                                EntryView { registered: true, ..p.entries[i] }
                            } else {
                                p.entries[i]
                            },
                    ),
                    ..p
                },
            ),
            None => None,
        }
    }

    /// The state after the step, before finished sequences leave.
    pub open spec fn stepped(self, samples: Seq<SampleView>) -> EngineView {
        EngineView {
            seqs: self.advanced_seqs(samples),
            paged: self.registered(),
            ..self
        }
    }

    /// The state after the sequence in `slot` left: the higher ones move down by one.
    pub open spec fn without(self, slot: int) -> EngineView {
        EngineView {
            model: match self.paged {
                Some(p) => shifted(self.model, p.tables, slot, p.tables.len() as int),
                None => self.model,
            },
            seqs: self.seqs.remove(slot),
            finished: self.finished.push(self.seqs[slot].result()),
            paged: match self.paged {
                Some(p) => Some(
                    PagedView {
                        tables: p.tables.remove(slot),
                        entries: p.entries.remove(slot),
                        retired: p.retired.push(p.entries[slot]),
                        ..p
                    },
                ),
                None => None,
            },
            ..self
        }
    }

    /// The copies that move sequence `i` down by one slot.
    pub open spec fn move_down(self, i: int) -> Seq<Move> {
        let sizes = self.model.sizes();
        sizes.kv_buffers().map_values(
            |buf: Buf| sizes.prefix_move(buf, i, i - 1, self.seqs[i].len as int),
        )
    }

    /// Why a prompt is refused at once, if it is.
    pub open spec fn admission_error(self, prompt: Seq<u32>) -> Option<EngineError> {
        if prompt.len() == 0 {
            Some(EngineError::EmptyPrompt)
        } else if prompt.len() > self.max_seq() {
            Some(
                EngineError::PromptTooLong {
                    len: prompt.len() as usize,
                    max_seq_len: self.model.cfg.max_seq_len,
                },
            )
        } else if self.seqs.len() >= self.capacity {
            Some(EngineError::AtCapacity)
        } else {
            None
        }
    }
}

/// Row `start_i` is where the rows of sequence `i` begin, and they all lie in the step.
pub proof fn lemma_spans(v: EngineView, i: int)
    requires
        0 <= i < v.seqs.len(),
    ensures
        0 <= v.row_start(i),
        0 <= v.rows_of(i),
        v.row_start(i) + v.rows_of(i) == v.row_start(i + 1),
        v.row_start(i + 1) <= v.rows().len() <= v.prefill_rows,
        v.seqs[i].prompt.len() > 0 ==> v.rows_of(i) <= v.seqs[i].prompt.len(),
        v.seqs[i].prompt.len() == 0 ==> v.rows_of(i) <= 1,
        v.seqs[i].prompt.len() == 0 && v.rows_of(i) > 0 ==> v.seqs[i].len < v.max_seq(),
{
    lemma_row_starts(v.seqs, v.prefill_rows as int, v.max_seq(), (i + 1) as nat, v.seqs.len());
    lemma_row_starts(v.seqs, v.prefill_rows as int, v.max_seq(), i as nat, v.seqs.len());
}

pub proof fn lemma_row_starts(seqs: Seq<SeqView>, budget: int, max_seq: int, i: nat, n: nat)
    requires
        i <= n,
        0 <= budget,
    ensures
        rows_before(seqs, budget, max_seq, i).len() <= rows_before(
            seqs,
            budget,
            max_seq,
            n,
        ).len() <= budget,
    decreases n,
{
    if n > 0 {
        if i < n {
            lemma_row_starts(seqs, budget, max_seq, i, (n - 1) as nat);
        } else {
            lemma_row_starts(seqs, budget, max_seq, (n - 1) as nat, (n - 1) as nat);
        }
    }
}

/// Replacing a slot's table leaves the other slots' tables.
pub proof fn lemma_with_table(m: ModelView, slot: usize, pages: Seq<u32>, i: int, l: int)
    requires
        m.paged,
        m.wf(),
        slot < m.batch,
        table_ok(m, pages),
        0 <= i < m.batch,
        0 <= l < m.max_pages,
    ensures
        0 <= i * m.max_pages + l < m.tables.len(),
        m.with_table(slot, pages)[i * m.max_pages + l] == if i == slot {
            page_at(pages, l) as i32
        } else {
            m.tables[i * m.max_pages + l]
        },
{
    let p = m.max_pages as int;
    assert(0 <= i * p && i * p + p <= m.batch * p) by (nonlinear_arith)
        requires
            0 <= i,
            i + 1 <= m.batch,
            0 <= p,
    ;
    if i < slot {
        assert(i * p + p <= slot * p) by (nonlinear_arith)
            requires
                i + 1 <= slot,
                0 <= p,
        ;
    } else if i > slot {
        assert(slot * p + p <= i * p) by (nonlinear_arith)
            requires
                slot + 1 <= i,
                0 <= p,
        ;
    }
}

/// Installing a valid table keeps the model well-formed.
pub proof fn lemma_with_table_wf(m: ModelView, slot: usize, pages: Seq<u32>)
    requires
        m.paged,
        m.wf(),
        slot < m.batch,
        table_ok(m, pages),
    ensures
        (ModelView { tables: m.with_table(slot, pages), ..m }).wf(),
{
    let w = ModelView { tables: m.with_table(slot, pages), ..m };
    lemma_below(pages, m.pool_pages(), 0);
    assert forall|k: int| 0 <= k < w.tables.len() implies 0 <= #[trigger] w.tables[k]
        < w.pool_pages() by {
        let start = slot * m.max_pages;
        if start <= k < start + pages.len() {
            assert(pages[k - start] < m.pool_pages());
        } else if start <= k < start + m.max_pages {
            assert(pages[pages.len() - 1] < m.pool_pages());
        } else {
            assert(w.tables[k] == m.tables[k]);
        }
    }
}

proof fn lemma_below(xs: Seq<u32>, limit: int, i: nat)
    requires
        first_at_least(xs, limit, i) is None,
    ensures
        forall|k: int| i <= k < xs.len() ==> (#[trigger] xs[k]) < limit,
    decreases xs.len() - i,
{
    if i < xs.len() {
        lemma_below(xs, limit, i + 1);
    }
}

/// Moving the tables above `slot` down installs the remaining tables.
pub proof fn lemma_shifted(m: ModelView, tables: Seq<Seq<u32>>, slot: int, n: int)
    requires
        m.paged,
        m.wf(),
        tables.len() <= m.batch,
        0 <= slot < tables.len(),
        slot < n <= tables.len(),
        forall|i: int| 0 <= i < tables.len() ==> table_ok(m, #[trigger] tables[i]),
        installed(m, tables),
    ensures
        ({
            let s = shifted(m, tables, slot, n);
            &&& s.wf()
            &&& s == (ModelView { tables: s.tables, ..m })
            &&& forall|i: int, l: int|
                0 <= i < tables.len() && 0 <= l < m.max_pages ==> #[trigger] s.tables[i
                    * m.max_pages + l] == page_at(
                    tables[if slot <= i < n - 1 {
                        i + 1
                    } else {
                        i
                    }],
                    l,
                ) as i32
        }),
    decreases n,
{
    if n == slot + 1 {
        assert forall|i: int, l: int|
            0 <= i < tables.len() && 0 <= l < m.max_pages implies #[trigger] m.tables[i
            * m.max_pages + l] == page_at(tables[i], l) as i32 by {
            assert(page_at(tables[i], l) == page_at(tables[i], l));
        }
    } else {
        lemma_shifted(m, tables, slot, n - 1);
        let p = shifted(m, tables, slot, n - 1);
        let s = shifted(m, tables, slot, n);
        assert(table_ok(m, tables[n - 1]));
        assert(table_ok(p, tables[n - 1]));
        lemma_with_table_wf(p, (n - 2) as usize, tables[n - 1]);
        assert forall|i: int, l: int|
            0 <= i < tables.len() && 0 <= l < m.max_pages implies #[trigger] s.tables[i
            * m.max_pages + l] == page_at(
            tables[if slot <= i < n - 1 {
                i + 1
            } else {
                i
            }],
            l,
        ) as i32 by {
            lemma_with_table(p, (n - 2) as usize, tables[n - 1], i, l);
            assert(p.tables[i * m.max_pages + l] == page_at(
                tables[if slot <= i < n - 2 {
                    i + 1
                } else {
                    i
                }],
                l,
            ) as i32);
        }
    }
}

/// A new table is installed behind the others.
pub proof fn lemma_table_added(m: ModelView, tables: Seq<Seq<u32>>, pages: Seq<u32>)
    requires
        m.paged,
        m.wf(),
        tables.len() < m.batch,
        table_ok(m, pages),
        installed(m, tables),
    ensures
        ({
            let w = ModelView { tables: m.with_table(tables.len() as usize, pages), ..m };
            w.wf() && installed(w, tables.push(pages))
        }),
{
    let slot = tables.len() as usize;
    let w = ModelView { tables: m.with_table(slot, pages), ..m };
    let more = tables.push(pages);
    lemma_with_table_wf(m, slot, pages);
    assert forall|i: int, l: int| 0 <= i < more.len() && 0 <= l < w.max_pages implies w.tables[i
        * w.max_pages + l] == #[trigger] page_at(more[i], l) as i32 by {
        lemma_with_table(m, slot, pages, i, l);
        if i < slot {
            assert(more[i] == tables[i]);
            assert(m.tables[i * m.max_pages + l] == page_at(tables[i], l) as i32);
        }
    }
}

/// A sequence that leaves keeps the engine well-formed.
pub proof fn lemma_without_wf(v: EngineView, slot: int)
    requires
        v.wf(),
        0 <= slot < v.seqs.len(),
    ensures
        v.without(slot).wf(),
{
    let w = v.without(slot);
    if let Some(p) = v.paged {
        lemma_shifted(v.model, p.tables, slot, p.tables.len() as int);
        let q = w.paged->0;
        assert forall|i: int| 0 <= i < q.tables.len() implies table_ok(
            w.model,
            #[trigger] q.tables[i],
        ) by {
            assert(q.tables[i] == p.tables[if i < slot {
                i
            } else {
                i + 1
            }]);
        }
        assert forall|i: int, l: int|
            0 <= i < q.tables.len() && 0 <= l < w.model.max_pages implies w.model.tables[i
            * w.model.max_pages + l] == #[trigger] page_at(q.tables[i], l) as i32 by {
            assert(q.tables[i] == p.tables[if slot <= i < p.tables.len() - 1 {
                i + 1
            } else {
                i
            }]);
        }
    }
    assert forall|i: int| 0 <= i < w.seqs.len() implies (#[trigger] w.seqs[i]).wf(
        w.max_seq(),
    ) by {
        assert(w.seqs[i] == v.seqs[if i < slot {
            i
        } else {
            i + 1
        }]);
    }
    lemma_without_ids(v, slot);
}

proof fn lemma_without_ids(v: EngineView, slot: int)
    requires
        v.ids_wf(),
        0 <= slot < v.seqs.len(),
    ensures
        v.without(slot).ids_wf(),
{
    let w = v.without(slot);
    let at = |i: int|
        if i < slot {
            i
        } else {
            i + 1
        };
    assert forall|i: int| 0 <= i < w.seqs.len() implies #[trigger] w.seqs[i]
        == v.seqs[at(i)] by {}
    assert forall|j: int| 0 <= j < v.finished.len() implies #[trigger] w.finished[j]
        == v.finished[j] by {}
    assert forall|i: int, j: int| 0 <= i < j < w.seqs.len() implies (#[trigger] w.seqs[i]).id != (
    #[trigger] w.seqs[j]).id by {
        assert(v.seqs[at(i)].id != v.seqs[at(j)].id);
    }
    assert forall|i: int, j: int|
        0 <= i < w.seqs.len() && 0 <= j < w.finished.len() implies (#[trigger] w.seqs[i]).id != (
    #[trigger] w.finished[j]).id by {
        if j == v.finished.len() {
            assert(v.seqs[at(i)].id != v.seqs[slot].id);
        }
    }
    assert forall|i: int, j: int| 0 <= i < j < w.finished.len() implies (
    #[trigger] w.finished[i]).id != (#[trigger] w.finished[j]).id by {
        if j == v.finished.len() {
            assert(v.seqs[slot].id != v.finished[i].id);
        }
    }
}

} // verus!
