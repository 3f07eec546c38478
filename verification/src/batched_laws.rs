//! Laws that relate the operations of a batched model.

use vstd::prelude::*;

use crate::batched::identity_slots;
use crate::batched::ModelView;
use crate::buffers::Slice;
use crate::device::Buf;

verus! {

/// The byte counts of an anchor, key and value cache of each layer.
pub open spec fn anchor_sizes(kv: Seq<Slice>, layers: nat) -> Seq<(usize, usize)> {
    Seq::new(layers, |li: int| (kv[2 * li].bytes, kv[2 * li + 1].bytes))
}

/// What an anchor reads can be restored, in the same slot or another: the restore is accepted,
/// and writes to the same caches as many bytes as were read. In the same slot it writes exactly
/// the bytes that were read.
pub proof fn lemma_saved_anchor_restores(v: ModelView, from: usize, to: usize, token_idx: usize)
    requires
        v.wf(),
        from < v.batch,
        to < v.batch,
        token_idx < v.cfg.max_seq_len,
    ensures
        v.restore_error(
            to,
            token_idx,
            anchor_sizes(v.kv_prefix(from, token_idx + 1), v.cfg.n_layers as nat),
        ) is None,
        v.kv_prefix(from, token_idx + 1).len() == v.kv_prefix(to, token_idx + 1).len(),
        forall|i: int|
            0 <= i < v.kv_prefix(from, token_idx + 1).len() ==> {
                let read = #[trigger] v.kv_prefix(from, token_idx + 1)[i];
                let written = v.kv_prefix(to, token_idx + 1)[i];
                read.buf == written.buf && read.bytes == written.bytes
            },
        from == to ==> v.kv_prefix(from, token_idx + 1) == v.kv_prefix(to, token_idx + 1),
{
    let s = v.sizes();
    let prefix = token_idx + 1;
    s.lemma_kv_len();
    let kv = v.kv_prefix(from, prefix);
    let sizes = anchor_sizes(kv, v.cfg.n_layers as nat);
    lemma_no_bad_layer(v, from, prefix, 0);
    assert(sizes.len() == v.cfg.n_layers);
}

proof fn lemma_no_bad_layer(v: ModelView, from: usize, prefix: int, li: nat)
    requires
        v.wf(),
        from < v.batch,
        0 <= prefix <= v.cfg.max_seq_len,
    ensures
        v.first_bad_layer(
            anchor_sizes(v.kv_prefix(from, prefix), v.cfg.n_layers as nat),
            prefix,
            li,
        ) is None,
    decreases v.cfg.n_layers - li,
{
    let s = v.sizes();
    s.lemma_kv_len();
    let kv = v.kv_prefix(from, prefix);
    if li < v.cfg.n_layers {
        s.lemma_kv_slice(from as int, prefix, 2 * li as int);
        s.lemma_kv_slice(from as int, prefix, 2 * li as int + 1);
        assert(kv[2 * li as int] == s.prefix_slice(
            s.kv_buffers()[2 * li as int],
            from as int,
            prefix,
        ));
        assert(kv[2 * li as int + 1] == s.prefix_slice(
            s.kv_buffers()[2 * li as int + 1],
            from as int,
            prefix,
        ));
        lemma_no_bad_layer(v, from, prefix, li + 1);
    }
}

/// Two sequences never share cache bytes: the prefixes of different slots are disjoint.
pub proof fn lemma_slots_disjoint(
    v: ModelView,
    a: usize,
    b: usize,
    len_a: int,
    len_b: int,
    i: int,
)
    requires
        v.wf(),
        a < b < v.batch,
        0 <= len_a <= v.cfg.max_seq_len,
        0 <= len_b <= v.cfg.max_seq_len,
        0 <= i < v.sizes().kv_buffers().len(),
    ensures
        v.kv_prefix(a, len_a)[i].offset + v.kv_prefix(a, len_a)[i].bytes <= v.kv_prefix(
            b,
            len_b,
        )[i].offset,
        v.kv_prefix(b, len_b)[i].offset + v.kv_prefix(b, len_b)[i].bytes <= v.sizes().bytes(
            v.sizes().kv_buffers()[i],
        ),
{
    let s = v.sizes();
    let buf = s.kv_buffers()[i];
    s.lemma_kv_slice(a as int, len_a, i);
    s.lemma_kv_slice(b as int, len_b, i);
    s.lemma_kv_inside(a as int, len_a, i);
    s.lemma_kv_inside(b as int, len_b, i);
    let row = s.slot_bytes(buf);
    assert((a + 1) * row <= b * row) by (nonlinear_arith)
        requires
            a + 1 <= b,
            0 <= row,
    ;
}

/// Copying a sequence moves its prefix onto the prefix of the other slot, cache by cache.
pub proof fn lemma_copy_moves_prefix(v: ModelView, from: usize, to: usize, len: int, i: int)
    requires
        0 <= i < v.sizes().kv_buffers().len(),
    ensures
        ({
            let m = v.sizes().prefix_move(
                v.sizes().kv_buffers()[i],
                from as int,
                to as int,
                len,
            );
            let src = v.kv_prefix(from, len)[i];
            let dst = v.kv_prefix(to, len)[i];
            &&& src == (Slice { buf: m.buf, offset: m.src, bytes: m.bytes })
            &&& dst == (Slice { buf: m.buf, offset: m.dst, bytes: m.bytes })
        }),
{
}

/// A greedy step stages what an explicit step stages for the rows `0..batch` at the lengths of
/// their sequences; only the explicit step leaves the device offsets marked as changed.
pub proof fn lemma_greedy_is_explicit(v: ModelView, tokens: Seq<u32>)
    requires
        v.wf(),
        tokens.len() == v.batch,
    ensures
        v.staged_rows(tokens, v.lens, identity_slots(v.batch)) == (ModelView {
            offsets_dirty: true,
            ..v.staged_decode(tokens, true)
        }),
{
    let ids = identity_slots(v.batch);
    lemma_identity_rows(v.last_row, v.batch, v.batch as nat);
    let a = v.staged_rows(tokens, v.lens, ids);
    let b = v.staged_decode(tokens, true);
    assert(a.last_row =~= b.last_row);
    assert(a.run_mask =~= b.run_mask);
}

proof fn lemma_identity_rows(last_row: Seq<usize>, batch: usize, n: nat)
    requires
        n <= batch <= i32::MAX,
        last_row.len() == batch,
    ensures
        crate::batched::packed_rows(last_row, identity_slots(batch), n).len() == batch,
        forall|i: int|
            0 <= i < n ==> #[trigger] crate::batched::packed_rows(
                last_row,
                identity_slots(batch),
                n,
            )[i] == i,
    decreases n,
{
    if n > 0 {
        lemma_identity_rows(last_row, batch, (n - 1) as nat);
    }
}

/// A step of a paged model addresses only its own pages: every row offset staged for valid slots
/// starts a slot's table, and every entry of that table names a page of the pool.
pub proof fn lemma_rows_stay_in_tables(v: ModelView, slots: Seq<u32>, r: int, page: int)
    requires
        v.wf(),
        v.paged,
        slots.len() <= v.rows,
        forall|i: int| 0 <= i < slots.len() ==> (#[trigger] slots[i]) < v.batch,
        0 <= r < slots.len(),
        0 <= page < v.max_pages,
    ensures
        ({
            let start = v.staged_offsets(slots)[r];
            &&& start == slots[r] * v.max_pages
            &&& 0 <= start + page < v.tables.len()
            &&& 0 <= v.tables[start + page] < v.pool_pages()
        }),
{
    let s = slots[r] as int;
    let p = v.max_pages as int;
    assert(0 <= s * p && s * p + p <= v.batch * p) by (nonlinear_arith)
        requires
            0 <= s < v.batch,
            0 <= p,
    ;
    let front = slots.map_values(|s: u32| (s * v.max_pages) as i32);
    assert(v.staged_offsets(slots)[r] == front[r]);
}

/// A paged model's scores and the reduction scratch fit 64 KiB of shared memory: its pages cover
/// the context exactly.
pub proof fn lemma_paged_scores(cfg: crate::config::Config, tokens_per_page: usize)
    requires
        crate::batched::paged_error(cfg, tokens_per_page) is None,
    ensures
        ({
            let pages = cfg.max_seq_len as int / tokens_per_page as int;
            &&& pages * tokens_per_page == cfg.max_seq_len
            &&& (pages * tokens_per_page + 256) * 4 <= 65536
        }),
{
    let t = tokens_per_page as int;
    vstd::arithmetic::div_mod::lemma_fundamental_div_mod(cfg.max_seq_len as int, t);
    let pages = cfg.max_seq_len as int / t;
    assert(t * pages == pages * t) by (nonlinear_arith);
}

} // verus!
