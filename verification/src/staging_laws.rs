//! What a step stages, which steps, tables and anchors are refused, and what they change.

use vstd::prelude::*;

use crate::batched::addressable;
use crate::batched::first_at_least;
use crate::batched::first_repeat;
use crate::batched::needs_half;
use crate::batched::needs_half_dense;
use crate::batched::packed_rows;
use crate::batched::paged_error;
use crate::batched::paged_refusal;
use crate::batched::pages_addressable;
use crate::batched::refusal;
use crate::batched::BatchedError;
use crate::batched::ModelView;
use crate::config::Config;
use crate::config::ModelDType;

verus! {

/// Explicit rows are staged each with its token, position and slot, and for paged models with
/// the table of its slot; no row is masked. Rows beyond them stay as they were.
pub proof fn lemma_stages(
    v: ModelView,
    tokens: Seq<u32>,
    lens: Seq<u32>,
    slots: Seq<u32>,
    r: int,
)
    requires
        v.wf(),
        tokens.len() == lens.len() == slots.len() <= v.rows,
        forall|i: int| 0 <= i < slots.len() ==> (#[trigger] slots[i]) < v.batch,
        forall|i: int| 0 <= i < lens.len() ==> (#[trigger] lens[i]) < v.cfg.max_seq_len,
        0 <= r < v.rows,
    ensures
        ({
            let w = v.staged_rows(tokens, lens, slots);
            &&& w.tokens.len() == w.pos.len() == w.slots.len() == w.run_mask.len() == v.rows
            &&& r < tokens.len() ==> {
                &&& w.tokens[r] == tokens[r] as i32
                &&& w.pos[r] == lens[r]
                &&& w.slots[r] == slots[r]
                &&& w.run_mask[r] == 0
                &&& v.paged ==> w.offsets[r] == slots[r] * v.max_pages
            }
            &&& r >= tokens.len() ==> {
                &&& w.tokens[r] == v.tokens[r]
                &&& w.pos[r] == v.pos[r]
                &&& w.slots[r] == v.slots[r]
                &&& w.run_mask[r] == v.run_mask[r]
                &&& v.paged ==> w.offsets[r] == v.offsets[r]
            }
            &&& w.lens == v.lens
            &&& w.tables == v.tables
            &&& w.decode_graphs == v.decode_graphs
            &&& w.layers == v.layers
        }),
{
    if r < slots.len() && v.paged {
        let (s, p, b, n) = (slots[r] as int, v.max_pages as int, v.batch as int, v.rows as int);
        assert(0 <= s * p <= b * p <= n * p) by (nonlinear_arith)
            requires
                0 <= s < b,
                b <= n,
                0 <= p,
        ;
    }
}

/// A greedy step stages one row for each sequence, at the end of that sequence.
pub proof fn lemma_stages_greedy(v: ModelView, tokens: Seq<u32>, offsets: bool, r: int)
    requires
        v.wf(),
        tokens.len() == v.batch,
        0 <= r < v.batch,
    ensures
        ({
            let w = v.staged_decode(tokens, offsets);
            &&& w.tokens[r] == tokens[r] as i32
            &&& w.pos[r] == v.lens[r]
            &&& w.slots[r] == r
            &&& w.run_mask[r] == 0
            &&& w.last_row[r] == r
            &&& offsets && v.paged ==> w.offsets[r] == r * v.max_pages
            &&& w.lens == v.lens
            &&& w.tables == v.tables
        }),
{
    assert(v.sizes().wf());
    if v.paged {
        let (p, b, n) = (v.max_pages as int, v.batch as int, v.rows as int);
        assert(0 <= r * p <= b * p <= n * p) by (nonlinear_arith)
            requires
                0 <= r < b,
                b <= n,
                0 <= p,
        ;
    }
}

/// Each slot remembers the last row that it occupied; a slot without a row keeps what it had.
pub proof fn lemma_last_rows(last_row: Seq<usize>, slots: Seq<u32>, n: nat, s: int)
    requires
        n <= slots.len() <= usize::MAX,
        0 <= s < last_row.len(),
        forall|i: int| 0 <= i < slots.len() ==> (#[trigger] slots[i]) < last_row.len(),
    ensures
        ({
            let now = packed_rows(last_row, slots, n);
            &&& now.len() == last_row.len()
            &&& (forall|i: int| 0 <= i < n ==> #[trigger] slots[i] != s) ==> now[s] == last_row[s]
            &&& forall|r: int|
                0 <= r < n && #[trigger] slots[r] == s ==> r <= now[s] < n && slots[now[s] as int]
                    == s
        }),
    decreases n,
{
    if n > 0 {
        lemma_last_rows(last_row, slots, (n - 1) as nat, s);
    }
}

/// Every element is below the limit.
pub open spec fn all_below(xs: Seq<u32>, limit: int) -> bool {
    forall|i: int| 0 <= i < xs.len() ==> (#[trigger] xs[i]) < limit
}

/// `x` is the first element of `xs` that is not below the limit.
pub open spec fn first_above(xs: Seq<u32>, limit: int, x: u32) -> bool {
    exists|i: int|
        0 <= i < xs.len() && #[trigger] xs[i] == x && x >= limit && all_below(xs.take(i), limit)
}

proof fn lemma_first_at_least(xs: Seq<u32>, limit: int, i: nat)
    requires
        i <= xs.len(),
        all_below(xs.take(i as int), limit),
    ensures
        match first_at_least(xs, limit, i) {
            Some(x) => first_above(xs, limit, x) && !all_below(xs, limit),
            None => all_below(xs, limit),
        },
    decreases xs.len() - i,
{
    if i < xs.len() {
        if xs[i as int] < limit {
            let more = xs.take((i + 1) as int);
            assert forall|k: int| 0 <= k < more.len() implies (#[trigger] more[k]) < limit by {
                if k < i {
                    assert(xs.take(i as int)[k] < limit);
                }
            }
            lemma_first_at_least(xs, limit, i + 1);
        }
    } else {
        assert(xs.take(i as int) =~= xs);
    }
}

proof fn lemma_first_repeat(xs: Seq<u32>, i: nat)
    requires
        i <= xs.len(),
        xs.take(i as int).no_duplicates(),
    ensures
        match first_repeat(xs, i) {
            Some(x) => !xs.no_duplicates() && exists|k: int|
                0 <= k < xs.len() && #[trigger] xs[k] == x && xs.take(k).contains(x),
            None => xs.no_duplicates(),
        },
    decreases xs.len() - i,
{
    if i < xs.len() {
        let front = xs.take(i as int);
        if front.contains(xs[i as int]) {
            let k = choose|k: int| 0 <= k < front.len() && front[k] == xs[i as int];
            assert(xs[k] == xs[i as int] && k != i);
        } else {
            let more = xs.take((i + 1) as int);
            assert forall|a: int, b: int|
                0 <= a < more.len() && 0 <= b < more.len() && a != b implies more[a]
                != more[b] by {
                if a < i && b < i {
                    assert(front[a] != front[b]);
                } else if a < i {
                    assert(front[a] == more[a]);
                } else {
                    assert(front[b] == more[b]);
                }
            }
            lemma_first_repeat(xs, i + 1);
        }
    } else {
        assert(xs.take(i as int) =~= xs);
    }
}

/// Explicit rows are accepted exactly if every position lies in the context and every slot in
/// the batch, and with linear attention no slot has two rows. The refusal names the first row
/// that is at fault, positions before slots before repeated slots.
pub proof fn lemma_rows_refused(v: ModelView, lens: Seq<u32>, slots: Seq<u32>)
    ensures
        ({
            let in_context = all_below(lens, v.cfg.max_seq_len as int);
            let in_batch = all_below(slots, v.batch as int);
            let linear = v.cfg.full_attention_interval > 0 && v.cfg.gdn_v_heads > 0;
            match v.rows_error(lens, slots) {
                None => in_context && in_batch && (linear ==> slots.no_duplicates()),
                Some(BatchedError::PositionOutOfRange { pos, max_seq_len }) => first_above(
                    lens,
                    v.cfg.max_seq_len as int,
                    pos,
                ) && max_seq_len == v.cfg.max_seq_len,
                Some(BatchedError::RowSlotOutOfRange { slot, batch }) => in_context && first_above(
                    slots,
                    v.batch as int,
                    slot,
                ) && batch == v.batch,
                Some(BatchedError::DuplicateSlot { slot }) => in_context && in_batch && linear
                    && exists|k: int|
                    0 <= k < slots.len() && #[trigger] slots[k] == slot && slots.take(k).contains(
                        slot,
                    ),
                _ => false,
            }
        }),
{
    lemma_first_at_least(lens, v.cfg.max_seq_len as int, 0);
    lemma_first_at_least(slots, v.batch as int, 0);
    lemma_first_repeat(slots, 0);
}

/// A greedy step is refused exactly if some sequence fills its context, and names the first.
pub proof fn lemma_full_refused(v: ModelView, i: nat)
    requires
        v.lens.len() <= usize::MAX,
    ensures
        match v.first_full(i) {
            Some(s) => i <= s < v.lens.len() && v.lens[s as int] >= v.cfg.max_seq_len && forall|
                k: int,
            |
                i <= k < s ==> (#[trigger] v.lens[k]) < v.cfg.max_seq_len,
            None => forall|k: int|
                i <= k < v.lens.len() ==> (#[trigger] v.lens[k]) < v.cfg.max_seq_len,
        },
    decreases v.lens.len() - i,
{
    if i < v.lens.len() && v.lens[i as int] < v.cfg.max_seq_len {
        lemma_full_refused(v, i + 1);
    }
}

/// A block table is accepted exactly if the model is paged, the slot exists, the table has
/// between one page and as many as a sequence may have, and all of them lie in the pool.
pub proof fn lemma_table_refused(v: ModelView, slot: usize, pages: Seq<u32>)
    ensures
        ({
            let fits = 0 < pages.len() <= v.max_pages;
            match v.table_error(slot, pages) {
                None => v.paged && slot < v.batch && fits && all_below(
                    pages,
                    v.batch * v.max_pages,
                ),
                Some(BatchedError::NotPaged) => !v.paged,
                Some(BatchedError::SlotOutOfRange { slot: s, batch }) => v.paged && slot >= v.batch
                    && (s, batch) == (slot, v.batch),
                Some(BatchedError::TableLength { len, max_pages }) => v.paged && slot < v.batch
                    && !fits && max_pages == v.max_pages && (pages.len() <= usize::MAX ==> len
                    == pages.len()),
                Some(BatchedError::PageOutOfRange { page, .. }) => v.paged && slot < v.batch && fits
                    && first_above(pages, v.batch * v.max_pages, page),
                _ => false,
            }
        }),
{
    lemma_first_at_least(pages, v.pool_pages(), 0);
}

/// The page that slot `s` uses for its logical page `l`.
pub open spec fn page_of(v: ModelView, tables: Seq<i32>, s: int, l: int) -> i32 {
    tables[s * v.max_pages + l]
}

/// A slot uses the pages of its new table in order, and its last page for everything behind;
/// every other slot uses the pages that it used.
pub proof fn lemma_table_set(v: ModelView, slot: usize, pages: Seq<u32>, s: int, l: int)
    requires
        v.wf(),
        v.table_error(slot, pages) is None,
        0 <= s < v.batch,
        0 <= l < v.max_pages,
    ensures
        ({
            let now = v.with_table(slot, pages);
            &&& now.len() == v.tables.len()
            &&& s == slot && l < pages.len() ==> page_of(v, now, s, l) == pages[l]
            &&& s == slot && l >= pages.len() ==> page_of(v, now, s, l) == pages.last()
            &&& s != slot ==> page_of(v, now, s, l) == page_of(v, v.tables, s, l)
        }),
{
    lemma_table_refused(v, slot, pages);
    let (p, b, t) = (v.max_pages as int, v.batch as int, slot as int);
    assert(0 <= s * p && s * p + p <= b * p) by (nonlinear_arith)
        requires
            0 <= s < b,
            0 <= p,
    ;
    if s < t {
        assert(s * p + p <= t * p) by (nonlinear_arith)
            requires
                s + 1 <= t,
                0 <= p,
        ;
    }
    if s > t {
        assert(t * p + p <= s * p) by (nonlinear_arith)
            requires
                t + 1 <= s,
                0 <= p,
        ;
    }
    let i = if l < pages.len() {
        l
    } else {
        pages.len() - 1
    };
    assert(pages[i] < v.pool_pages());
}

/// Before any table is set no two slots share a page, and together they use the whole pool.
pub proof fn lemma_own_pages(v: ModelView, tokens_per_page: usize, s: int, l: int, t: int, m: int)
    requires
        v.batch * (v.cfg.max_seq_len as int / tokens_per_page as int) <= i32::MAX,
        tokens_per_page > 0,
        0 <= s < v.batch,
        0 <= t < v.batch,
        0 <= l < v.cfg.max_seq_len as int / tokens_per_page as int,
        0 <= m < v.cfg.max_seq_len as int / tokens_per_page as int,
    ensures
        ({
            let w = v.with_pages(tokens_per_page);
            &&& w.paged
            &&& w.tokens_per_page == tokens_per_page
            &&& w.max_pages == v.cfg.max_seq_len as int / tokens_per_page as int
            &&& w.tables.len() == w.batch * w.max_pages
            &&& 0 <= page_of(w, w.tables, s, l) < w.batch * w.max_pages
            &&& (s, l) != (t, m) ==> page_of(w, w.tables, s, l) != page_of(w, w.tables, t, m)
        }),
{
    let p = v.cfg.max_seq_len as int / tokens_per_page as int;
    let b = v.batch as int;
    assert(0 <= s * p && s * p + p <= b * p && 0 <= t * p && t * p + p <= b * p) by (
        nonlinear_arith)
        requires
            0 <= s < b,
            0 <= t < b,
            0 <= p,
    ;
    if s < t {
        assert(s * p + p <= t * p) by (nonlinear_arith)
            requires
                s + 1 <= t,
                0 <= p,
        ;
    }
    if s > t {
        assert(t * p + p <= s * p) by (nonlinear_arith)
            requires
                t + 1 <= s,
                0 <= p,
        ;
    }
}

/// A model can be paged exactly if its pages divide the context, the scores of the context fit
/// the shared memory, low-rank attention runs in single precision, and no layer has
/// linear-attention state.
pub proof fn lemma_pageable(cfg: Config, tokens_per_page: usize)
    ensures
        ({
            let divides = tokens_per_page > 0 && exists|n: int|
                cfg.max_seq_len == #[trigger] (n * tokens_per_page);
            let scores = cfg.max_seq_len <= 16384 - 256;
            let low_rank = cfg.kv_lora_rank > 0;
            let linear = cfg.full_attention_interval > 0 && cfg.gdn_v_heads > 0;
            match paged_error(cfg, tokens_per_page) {
                None => divides && scores && (low_rank ==> cfg.dtype == ModelDType::F32) && !linear,
                Some(BatchedError::PageSize { tokens_per_page: t, max_seq_len }) => !divides && (
                t,
                max_seq_len,
            ) == (tokens_per_page, cfg.max_seq_len),
                Some(BatchedError::AttentionMemory { max_seq_len }) => divides && !scores
                    && max_seq_len == cfg.max_seq_len,
                Some(BatchedError::PagedMlaHalf) => divides && scores && low_rank && cfg.dtype
                    != ModelDType::F32,
                Some(BatchedError::PagedLinearAttention) => divides && scores && linear && (low_rank
                    ==> cfg.dtype == ModelDType::F32),
                _ => false,
            }
        }),
{
    let len = cfg.max_seq_len as int;
    let t = tokens_per_page as int;
    if t > 0 {
        vstd::arithmetic::div_mod::lemma_fundamental_div_mod(len, t);
        if len % t == 0 {
            vstd::arithmetic::mul::lemma_mul_is_commutative(t, len / t);
            assert(len == (len / t) * tokens_per_page);
        }
        if exists|n: int| cfg.max_seq_len == #[trigger] (n * tokens_per_page) {
            let n = choose|n: int| cfg.max_seq_len == #[trigger] (n * tokens_per_page);
            vstd::arithmetic::div_mod::lemma_mod_multiples_basic(n, t);
        }
    }
}

/// A build succeeds exactly if nothing is wrong with the request and the model can be addressed; a
/// paged one if the configuration can be paged and its pages addressed too. The first thing wrong
/// is named.
pub proof fn lemma_builds(
    pre: Option<BatchedError>,
    cfg: Config,
    slots: usize,
    rows: usize,
    tokens_per_page: usize,
)
    ensures
        refusal(pre, cfg, slots, rows) is None <==> pre is None && addressable(cfg, slots, rows),
        pre is Some ==> refusal(pre, cfg, slots, rows) == pre,
        pre is None && !addressable(cfg, slots, rows) ==> refusal(pre, cfg, slots, rows) == Some(
            BatchedError::TooLarge,
        ),
        paged_refusal(pre, cfg, slots, rows, tokens_per_page) is None <==> paged_error(
            cfg,
            tokens_per_page,
        ) is None && refusal(pre, cfg, slots, rows) is None && pages_addressable(
            cfg,
            rows,
            tokens_per_page,
        ),
        paged_error(cfg, tokens_per_page) is Some ==> paged_refusal(
            pre,
            cfg,
            slots,
            rows,
            tokens_per_page,
        ) == paged_error(cfg, tokens_per_page),
{
}

/// Packed storage computes in half precision; packed dense tensors also need plain attention.
pub proof fn lemma_packed_builds(cfg: Config)
    ensures
        needs_half(cfg) is None <==> cfg.dtype == ModelDType::F16,
        needs_half_dense(cfg) is None <==> cfg.dtype == ModelDType::F16 && cfg.kv_lora_rank == 0,
        cfg.dtype != ModelDType::F16 ==> needs_half(cfg) == Some(BatchedError::NeedsHalf)
            && needs_half_dense(cfg) == Some(BatchedError::NeedsHalf),
{
}

/// Before anything is staged row `r` of a paged model looks at the table of slot `r`.
pub proof fn lemma_first_offsets(v: ModelView, tokens_per_page: usize, r: int)
    requires
        0 <= r < v.rows,
        tokens_per_page > 0,
        v.rows * (v.cfg.max_seq_len as int / tokens_per_page as int) <= i32::MAX,
    ensures
        v.with_pages(tokens_per_page).offsets.len() == v.rows,
        v.with_pages(tokens_per_page).offsets[r] == r * (v.cfg.max_seq_len as int
            / tokens_per_page as int),
{
    let p = v.cfg.max_seq_len as int / tokens_per_page as int;
    let n = v.rows as int;
    assert(0 <= r * p <= n * p) by (nonlinear_arith)
        requires
            0 <= r < n,
            0 <= p,
    ;
}

/// An anchor is saved exactly if its slot exists, it covers the tokens up to its index, and no
/// layer has linear-attention state.
pub proof fn lemma_save_refused(v: ModelView, slot: usize, tokens: usize, token_idx: usize)
    ensures
        match v.save_error(slot, tokens as int, token_idx) {
            None => slot < v.batch && tokens == token_idx + 1 && !v.gdn(),
            Some(BatchedError::SlotOutOfRange { slot: s, batch }) => slot >= v.batch && (s, batch)
                == (slot, v.batch),
            Some(BatchedError::AnchorLength { token_idx: i, tokens: n }) => slot < v.batch
                && tokens != token_idx + 1 && (i, n) == (token_idx, tokens),
            Some(BatchedError::AnchorLinearAttention) => slot < v.batch && tokens == token_idx + 1
                && v.gdn(),
            _ => false,
        },
{
}

/// The saved caches of layer `li` have the size of `prefix` positions.
pub open spec fn layer_matches(
    v: ModelView,
    sizes: Seq<(usize, usize)>,
    prefix: int,
    li: int,
) -> bool {
    let s = v.sizes();
    &&& sizes[li].0 == prefix * s.token_bytes(s.kv_buffers()[2 * li])
    &&& sizes[li].1 == prefix * s.token_bytes(s.kv_buffers()[2 * li + 1])
}

proof fn lemma_first_bad_layer(v: ModelView, sizes: Seq<(usize, usize)>, prefix: int, li: nat)
    requires
        sizes.len() <= usize::MAX,
    ensures
        match v.first_bad_layer(sizes, prefix, li) {
            Some(k) => li <= k < sizes.len() && !layer_matches(v, sizes, prefix, k as int)
                && forall|m: int| li <= m < k ==> #[trigger] layer_matches(v, sizes, prefix, m),
            None => forall|m: int|
                li <= m < sizes.len() ==> #[trigger] layer_matches(v, sizes, prefix, m),
        },
    decreases sizes.len() - li,
{
    if li < sizes.len() && layer_matches(v, sizes, prefix, li as int) {
        lemma_first_bad_layer(v, sizes, prefix, li + 1);
    }
}

/// An anchor is restored exactly if its slot exists, it has a pair of caches for each layer, its
/// prefix lies in the context, and each cache has the size of the prefix.
pub proof fn lemma_restore_refused(
    v: ModelView,
    slot: usize,
    token_idx: usize,
    sizes: Seq<(usize, usize)>,
)
    requires
        sizes.len() <= usize::MAX,
        token_idx < usize::MAX,
    ensures
        ({
            let prefix = token_idx + 1;
            let placed = slot < v.batch && sizes.len() == v.cfg.n_layers;
            match v.restore_error(slot, token_idx, sizes) {
                None => placed && prefix <= v.cfg.max_seq_len && forall|li: int|
                    0 <= li < sizes.len() ==> #[trigger] layer_matches(v, sizes, prefix, li),
                Some(BatchedError::SlotOutOfRange { .. }) => slot >= v.batch,
                Some(BatchedError::AnchorLayers { got, want }) => slot < v.batch && got
                    == sizes.len() && want == v.cfg.n_layers && got != want,
                Some(BatchedError::AnchorTooLong { prefix: p, max_seq_len }) => placed && p
                    == prefix
                    && max_seq_len == v.cfg.max_seq_len && p > max_seq_len,
                Some(BatchedError::AnchorKvSize { layer }) => placed && prefix <= v.cfg.max_seq_len
                    && layer < sizes.len() && !layer_matches(v, sizes, prefix, layer as int)
                    && forall|m: int|
                    0 <= m < layer ==> #[trigger] layer_matches(v, sizes, prefix, m),
                _ => false,
            }
        }),
{
    lemma_first_bad_layer(v, sizes, token_idx + 1, 0);
}

/// A restored sequence is as long as its anchor, and continues from the restored hidden state if
/// there is one. No other sequence changes.
pub proof fn lemma_restored(v: ModelView, slot: usize, token_idx: usize, hidden_len: usize)
    requires
        v.wf(),
        slot < v.batch,
        token_idx < v.cfg.max_seq_len,
    ensures
        ({
            let w = v.restored(slot, token_idx, hidden_len);
            &&& w.lens[slot as int] == token_idx + 1
            &&& forall|s: int| 0 <= s < v.batch && s != slot ==> #[trigger] w.lens[s] == v.lens[s]
            &&& hidden_len == v.cfg.d_model ==> w.last_row[slot as int] == slot
            &&& hidden_len != v.cfg.d_model ==> w.last_row[slot as int] == v.last_row[slot as int]
            &&& forall|s: int|
                0 <= s < v.batch && s != slot ==> #[trigger] w.last_row[s] == v.last_row[s]
            &&& w.tables == v.tables
            &&& w.tokens == v.tokens && w.pos == v.pos && w.slots == v.slots
        }),
{
}

/// The hidden state of each row is its own part of the stream: rows do not overlap, follow each
/// other, and are as wide as the model.
pub proof fn lemma_hidden_rows(v: ModelView, r: int)
    requires
        v.wf(),
        0 <= r,
        r + 1 < v.rows,
    ensures
        ({
            let a = v.hidden_row(r);
            let b = v.hidden_row(r + 1);
            &&& a.bytes == v.cfg.d_model * 4 && b.bytes == a.bytes
            &&& a.offset == r * a.bytes
            &&& a.offset + a.bytes == b.offset
            &&& a.buf == b.buf && a.buf == crate::device::Buf::X
        }),
{
    let (d, n) = (v.cfg.d_model as int, v.rows as int);
    assert((r + 1) * d * 4 + d * 4 <= n * d * 4) by (nonlinear_arith)
        requires
            r + 2 <= n,
            0 <= d,
    ;
    assert((r + 1) * d * 4 == r * d * 4 + d * 4) by (nonlinear_arith);
    assert(r * (d * 4) == r * d * 4) by (nonlinear_arith);
    assert(0 <= r * d * 4) by (nonlinear_arith)
        requires
            0 <= r,
            0 <= d,
    ;
}

} // verus!
