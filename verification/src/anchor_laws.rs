//! What saving and restoring an anchor does to device memory.

use vstd::prelude::*;

use crate::batched::ModelView;
use crate::batched_laws::anchor_sizes;
use crate::batched_laws::lemma_saved_anchor_restores;
use crate::buffers::Sizes;
use crate::buffers::Slice;
use crate::device::Buf;

verus! {

/// Device memory: the bytes of each buffer.
pub type Bytes = Map<Buf, Seq<u8>>;

/// The KV caches and the hidden states have their sizes.
pub open spec fn sized(mem: Bytes, sizes: Sizes) -> bool {
    &&& mem.contains_key(Buf::X)
    &&& mem[Buf::X].len() == sizes.rows * sizes.cfg.d_model * 4
    &&& forall|i: int|
        0 <= i < sizes.kv_buffers().len() ==> mem.contains_key(
            #[trigger] sizes.kv_buffers()[i],
        ) && mem[sizes.kv_buffers()[i]].len() == sizes.bytes(sizes.kv_buffers()[i])
}

/// The bytes of a slice.
pub open spec fn read(mem: Bytes, s: Slice) -> Seq<u8> {
    mem[s.buf].subrange(s.offset as int, s.offset + s.bytes)
}

/// The bytes of each slice.
pub open spec fn read_all(mem: Bytes, slices: Seq<Slice>) -> Seq<Seq<u8>> {
    slices.map_values(|s: Slice| read(mem, s))
}

/// `old` with `data` from `offset` on.
pub open spec fn patched(old: Seq<u8>, offset: int, data: Seq<u8>) -> Seq<u8> {
    Seq::new(
        old.len(),
        |i: int|
            if offset <= i < offset + data.len() {
                data[i - offset]
            } else {
                old[i]
            },
    )
}

/// Memory after `data` was written to a slice.
pub open spec fn write(mem: Bytes, s: Slice, data: Seq<u8>) -> Bytes {
    mem.insert(s.buf, patched(mem[s.buf], s.offset as int, data))
}

/// Memory after each slice was written.
pub open spec fn write_all(mem: Bytes, slices: Seq<Slice>, data: Seq<Seq<u8>>) -> Bytes
    decreases slices.len(),
{
    if slices.len() == 0 {
        mem
    } else {
        write(
            write_all(mem, slices.drop_last(), data.drop_last()),
            slices.last(),
            data.last(),
        )
    }
}

/// The contents of an anchor.
pub struct Saved {
    /// Key and value cache of each layer.
    pub kv: Seq<Seq<u8>>,
    pub hidden: Seq<u8>,
}

/// What an anchor at `token_idx` of the sequence in `slot` holds.
pub open spec fn saved(v: ModelView, mem: Bytes, slot: usize, token_idx: usize) -> Saved {
    Saved {
        kv: read_all(mem, v.kv_prefix(slot, token_idx + 1)),
        hidden: read(mem, v.hidden_row(v.last_row[slot as int] as int)),
    }
}

/// Memory after an anchor was restored into `slot`.
pub open spec fn restored_memory(
    v: ModelView,
    mem: Bytes,
    slot: usize,
    token_idx: usize,
    a: Saved,
) -> Bytes {
    write(
        write_all(mem, v.kv_prefix(slot, token_idx + 1), a.kv),
        v.hidden_row(slot as int),
        a.hidden,
    )
}

/// The byte counts of the caches that an anchor holds.
pub open spec fn saved_sizes(a: Saved, layers: nat) -> Seq<(usize, usize)> {
    Seq::new(layers, |li: int| (a.kv[2 * li].len() as usize, a.kv[2 * li + 1].len() as usize))
}

/// Writing slices of distinct buffers patches each buffer once and leaves the others alone.
proof fn lemma_write_all(mem: Bytes, slices: Seq<Slice>, data: Seq<Seq<u8>>)
    requires
        slices.len() == data.len(),
        forall|i: int, j: int|
            0 <= i < j < slices.len() ==> (#[trigger] slices[i]).buf != (#[trigger] slices[j]).buf,
    ensures
        forall|i: int|
            0 <= i < slices.len() ==> write_all(mem, slices, data)[(#[trigger] slices[i]).buf]
                == patched(mem[slices[i].buf], slices[i].offset as int, data[i]),
        forall|b: Buf|
            (forall|i: int| 0 <= i < slices.len() ==> (#[trigger] slices[i]).buf != b)
                ==> #[trigger] write_all(mem, slices, data)[b] == mem[b],
    decreases slices.len(),
{
    if slices.len() > 0 {
        let front = slices.drop_last();
        let before = write_all(mem, front, data.drop_last());
        let n = slices.len() - 1;
        lemma_write_all(mem, front, data.drop_last());
        assert forall|i: int| 0 <= i < slices.len() implies write_all(mem, slices, data)[(
        #[trigger] slices[i]).buf] == patched(
            mem[slices[i].buf],
            slices[i].offset as int,
            data[i],
        ) by {
            if i < n {
                assert(front[i] == slices[i]);
                assert(slices[i].buf != slices[n].buf);
            } else {
                assert forall|k: int| 0 <= k < front.len() implies (#[trigger] front[k]).buf
                    != slices[n].buf by {
                    assert(front[k] == slices[k]);
                }
                assert(before[slices[n].buf] == mem[slices[n].buf]);
            }
        }
        assert forall|b: Buf|
            (forall|i: int| 0 <= i < slices.len() ==> (#[trigger] slices[i]).buf != b)
                implies #[trigger] write_all(mem, slices, data)[b] == mem[b] by {
            assert(slices[n].buf != b);
            assert forall|k: int| 0 <= k < front.len() implies (#[trigger] front[k]).buf
                != b by {
                assert(front[k] == slices[k]);
            }
        }
    }
}

/// A hidden state lies inside its buffer.
proof fn lemma_hidden_inside(v: ModelView, row: int)
    requires
        v.wf(),
        0 <= row < v.rows,
    ensures
        v.hidden_row(row).offset == row * v.cfg.d_model * 4,
        v.hidden_row(row).bytes == v.cfg.d_model * 4,
        v.hidden_row(row).offset + v.hidden_row(row).bytes <= v.rows * v.cfg.d_model * 4,
{
    let d = v.cfg.d_model as int;
    let s = v.sizes();
    assert(s.buffers()[10] == Buf::X);
    assert(s.factors(s.buffers()[10]) == (v.rows as int, d, 4int, 1int, 1int));
    assert(v.rows * d * 4 * 1 * 1 == v.rows * d * 4) by (nonlinear_arith);
    assert(0 <= row * d && row * d + d <= v.rows * d) by (nonlinear_arith)
        requires
            0 <= row,
            row + 1 <= v.rows,
            0 <= d,
    ;
}

/// The prefix of a slot in cache `i`, as a slice of that cache.
proof fn lemma_prefix(v: ModelView, slot: usize, len: int, i: int)
    requires
        v.wf(),
        slot < v.batch,
        0 <= len <= v.cfg.max_seq_len,
        0 <= i < v.sizes().kv_buffers().len(),
    ensures
        ({
            let s = v.kv_prefix(slot, len)[i];
            let buf = v.sizes().kv_buffers()[i];
            let row = v.sizes().slot_bytes(buf);
            &&& s.buf == buf
            &&& s.offset == slot * row
            &&& s.bytes == len * v.sizes().token_bytes(buf)
            &&& 0 <= row
            &&& s.offset + s.bytes <= (slot + 1) * row <= v.sizes().bytes(buf)
        }),
{
    v.sizes().lemma_kv_slice(slot as int, len, i);
    v.sizes().lemma_kv_inside(slot as int, len, i);
}

/// A restored anchor gives back what was saved. The anchor was saved from slot `from`; since
/// then the model and its memory may have changed, but not the model's size. Then the restore
/// is accepted; the prefix of `to` holds the saved KV; the sequence has the anchor's length, and
/// the other sequences keep theirs with all their KV; and saving from `to` gives the same anchor
/// again.
pub proof fn lemma_restore_gives_back(
    before: ModelView,
    before_mem: Bytes,
    v: ModelView,
    mem: Bytes,
    from: usize,
    to: usize,
    token_idx: usize,
)
    requires
        before.wf(),
        v.wf(),
        before.sizes() == v.sizes(),
        sized(before_mem, v.sizes()),
        sized(mem, v.sizes()),
        before.save_error(from, token_idx + 1, token_idx) is None,
        token_idx < v.cfg.max_seq_len,
        to < v.batch,
    ensures
        ({
            let a = saved(before, before_mem, from, token_idx);
            let after = v.restored(to, token_idx, v.cfg.d_model);
            let after_mem = restored_memory(v, mem, to, token_idx, a);
            &&& v.restore_error(to, token_idx, saved_sizes(a, v.cfg.n_layers as nat)) is None
            &&& read_all(after_mem, v.kv_prefix(to, token_idx + 1)) == a.kv
            &&& after.lens[to as int] == token_idx + 1
            &&& forall|o: usize|
                o < v.batch && o != to ==> #[trigger] after.lens[o as int] == v.lens[o as int]
            &&& forall|o: usize, len: int|
                o < v.batch && o != to && 0 <= len <= v.cfg.max_seq_len ==> read_all(
                    after_mem,
                    #[trigger] v.kv_prefix(o, len),
                ) == read_all(mem, v.kv_prefix(o, len))
            &&& after.save_error(to, token_idx + 1, token_idx) is None
            &&& saved(after, after_mem, to, token_idx) == a
        }),
{
    let s = v.sizes();
    let n = token_idx + 1;
    let kvs = s.kv_buffers();
    let a = saved(before, before_mem, from, token_idx);
    let slices = v.kv_prefix(to, n);
    let reads = before.kv_prefix(from, n);
    let after = v.restored(to, token_idx, v.cfg.d_model);
    let kv_mem = write_all(mem, slices, a.kv);
    let after_mem = restored_memory(v, mem, to, token_idx, a);
    s.lemma_kv_len();
    s.lemma_kv_distinct();
    assert forall|i: int, j: int| 0 <= i < j < slices.len() implies (#[trigger] slices[i]).buf
        != (#[trigger] slices[j]).buf by {
        assert(slices[i].buf == kvs[i] && slices[j].buf == kvs[j]);
    }
    lemma_write_all(mem, slices, a.kv);
    lemma_hidden_inside(before, before.last_row[from as int] as int);
    lemma_hidden_inside(v, to as int);
    assert forall|i: int| 0 <= i < slices.len() implies kvs[i] != Buf::X && (
    #[trigger] slices[i]).buf == kvs[i] && a.kv[i].len() == slices[i].bytes by {
        lemma_prefix(before, from, n, i);
        lemma_prefix(v, to, n, i);
        assert(a.kv[i] == read(before_mem, reads[i]));
    }
    // The restore is accepted.
    lemma_saved_anchor_restores(v, from, to, token_idx);
    assert(saved_sizes(a, v.cfg.n_layers as nat) =~= anchor_sizes(
        v.kv_prefix(from, n),
        v.cfg.n_layers as nat,
    )) by {
        assert forall|i: int| 0 <= i < reads.len() implies a.kv[i].len() == (
        #[trigger] v.kv_prefix(from, n)[i]).bytes by {
            lemma_prefix(before, from, n, i);
        }
    }
    // The caches hold what was saved.
    assert forall|i: int| 0 <= i < slices.len() implies #[trigger] read(after_mem, slices[i])
        == a.kv[i] by {
        lemma_prefix(v, to, n, i);
        assert(after_mem[kvs[i]] == kv_mem[slices[i].buf]);
        assert(read(after_mem, slices[i]) =~= a.kv[i]);
    }
    assert(read_all(after_mem, slices) =~= a.kv);
    // The other sequences are untouched.
    assert forall|o: usize, len: int|
        o < v.batch && o != to && 0 <= len <= v.cfg.max_seq_len implies read_all(
        after_mem,
        #[trigger] v.kv_prefix(o, len),
    ) == read_all(mem, v.kv_prefix(o, len)) by {
        let others = v.kv_prefix(o, len);
        assert forall|i: int| 0 <= i < others.len() implies read(
            after_mem,
            #[trigger] others[i],
        ) == read(mem, others[i]) by {
            lemma_prefix(v, to, n, i);
            lemma_prefix(v, o, len, i);
            let row = s.slot_bytes(kvs[i]);
            assert(o < to ==> (o + 1) * row <= to * row) by (nonlinear_arith)
                requires
                    0 <= row,
            ;
            assert(to < o ==> (to + 1) * row <= o * row) by (nonlinear_arith)
                requires
                    0 <= row,
            ;
            assert(slices[i].buf == kvs[i]);
            assert(after_mem[kvs[i]] == kv_mem[slices[i].buf]);
            assert(read(after_mem, others[i]) =~= read(mem, others[i]));
        }
        assert(read_all(after_mem, others) =~= read_all(mem, others));
    }
    // Saving again gives the same anchor.
    assert(kv_mem[Buf::X] == mem[Buf::X]) by {
        assert forall|i: int| 0 <= i < slices.len() implies (#[trigger] slices[i]).buf
            != Buf::X by {
            assert(kvs[i] != Buf::X);
        }
    }
    assert(after.kv_prefix(to, n) =~= slices);
    assert(after.last_row[to as int] == to);
    assert(read(after_mem, v.hidden_row(to as int)) =~= a.hidden);
    assert(saved(after, after_mem, to, token_idx).kv =~= a.kv);
}

} // verus!
