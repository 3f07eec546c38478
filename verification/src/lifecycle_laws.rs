//! What becomes of sequences that are asked for, finish or move, and which steps can be replayed.

use vstd::prelude::*;

use crate::batched::ModelView;
use crate::buffers::Memory;
use crate::buffers::Sizes;
use crate::config::ModelDType;
use crate::continuous::find_active;
use crate::continuous::find_finished;
use crate::continuous::row_capacity;
use crate::device::Buf;
use crate::engine_model::EngineView;
use crate::engine_model::FinishedView;
use crate::forward::Step;
use crate::sequence::SeqId;
use crate::sequence::SeqView;

verus! {

proof fn lemma_find_finished(finished: Seq<FinishedView>, id: SeqId, i: nat)
    ensures
        match find_finished(finished, id, i) {
            Some(f) => f.id == id && exists|k: int|
                i <= k < finished.len() && #[trigger] finished[k] == f,
            None => forall|k: int|
                i <= k < finished.len() ==> (#[trigger] finished[k]).id != id,
        },
    decreases finished.len() - i,
{
    if i < finished.len() && finished[i as int].id != id {
        lemma_find_finished(finished, id, i + 1);
    }
}

proof fn lemma_find_active(seqs: Seq<SeqView>, id: SeqId, i: nat)
    ensures
        match find_active(seqs, id, i) {
            Some(s) => s.id == id && exists|k: int|
                i <= k < seqs.len() && #[trigger] seqs[k] == s,
            None => forall|k: int| i <= k < seqs.len() ==> (#[trigger] seqs[k]).id != id,
        },
    decreases seqs.len() - i,
{
    if i < seqs.len() && seqs[i as int].id != id {
        lemma_find_active(seqs, id, i + 1);
    }
}

/// Every sequence is found under its id: an active one among the active, a finished one among the
/// finished, neither among the others; an id that was never handed out is found nowhere.
pub proof fn lemma_found_by_id(v: EngineView, id: SeqId)
    requires
        v.wf(),
    ensures
        forall|i: int|
            0 <= i < v.seqs.len() && (#[trigger] v.seqs[i]).id == id ==> find_active(v.seqs, id, 0)
                == Some(v.seqs[i]) && find_finished(v.finished, id, 0) is None,
        forall|i: int|
            0 <= i < v.finished.len() && (#[trigger] v.finished[i]).id == id ==> find_finished(
                v.finished,
                id,
                0,
            ) == Some(v.finished[i]) && find_active(v.seqs, id, 0) is None,
        id >= v.next_id ==> find_active(v.seqs, id, 0) is None && find_finished(v.finished, id, 0)
            is None,
{
    lemma_find_active(v.seqs, id, 0);
    lemma_find_finished(v.finished, id, 0);
}

/// A finished sequence gives back at once exactly the pages behind those with content: the table
/// is the pages that stay, followed by the pages given back.
pub proof fn lemma_pages_given_back(v: EngineView, slot: int)
    requires
        v.wf(),
        v.paged is Some,
        0 <= slot < v.seqs.len(),
    ensures
        ({
            let p = v.paged->0;
            let table = p.tables[slot];
            let kept = vstd::math::min(
                p.entries[slot].chain.len() as int,
                table.len() as int,
            );
            &&& v.freed(slot).len() == table.len() - kept
            &&& table.take(kept) + v.freed(slot) == table
        }),
{
    let p = v.paged->0;
    let table = p.tables[slot];
    let kept = vstd::math::min(p.entries[slot].chain.len() as int, table.len() as int);
    assert(table.take(kept) + v.freed(slot) =~= table);
}

/// Without pages nothing is given back.
pub proof fn lemma_nothing_given_back(v: EngineView, slot: int)
    requires
        v.paged is None,
    ensures
        v.freed(slot).len() == 0,
{
}

/// A sequence that moves down takes the positions that it consumed, of every cache, from its slot
/// to the same place of the slot below.
pub proof fn lemma_moves_down(v: EngineView, i: int, k: int)
    requires
        v.wf(),
        0 < i < v.seqs.len(),
        0 <= k < v.model.sizes().kv_buffers().len(),
    ensures
        ({
            let m = v.move_down(i)[k];
            let from = v.model.kv_prefix(i as usize, v.seqs[i].len as int)[k];
            let to = v.model.kv_prefix((i - 1) as usize, v.seqs[i].len as int)[k];
            &&& v.move_down(i).len() == v.model.sizes().kv_buffers().len()
            &&& m.buf == from.buf && m.buf == to.buf
            &&& m.src == from.offset && m.dst == to.offset
            &&& m.bytes == from.bytes && m.bytes == to.bytes
        }),
{
}

/// An engine has a row for every slot, and as many as prefill asks for.
pub proof fn lemma_row_capacity(capacity: usize, prefill_rows: usize)
    ensures
        row_capacity(capacity, prefill_rows) >= capacity,
        row_capacity(capacity, prefill_rows) >= prefill_rows,
        row_capacity(capacity, prefill_rows) == capacity || row_capacity(capacity, prefill_rows)
            == prefill_rows,
{
}

/// Anchors are saved exactly where reuse is on, of sequences that consumed a token, without pages
/// and without linear attention.
pub proof fn lemma_anchor_left(v: EngineView, slot: int)
    ensures
        v.leaves_anchor(slot) <==> v.save_anchors && v.paged is None && v.seqs[slot].len > 0 && !(
        v.model.cfg.full_attention_interval > 0 && v.model.cfg.gdn_v_heads > 0),
{
}

/// A position of a cache holds one number for each dimension of each head of its kind.
pub proof fn lemma_position_bytes(s: Sizes, li: usize)
    ensures
        ({
            let c = s.cfg;
            let elem: int = if c.dtype == ModelDType::F16 {
                2
            } else {
                4
            };
            &&& s.token_bytes(Buf::KCache(li)) == c.n_kv_heads * c.head_dim * elem
            &&& s.token_bytes(Buf::VCache(li)) == c.n_kv_heads * c.head_dim * elem
            &&& s.token_bytes(Buf::MlaKCache(li)) == c.n_heads * (c.qk_nope_head_dim
                + c.qk_rope_head_dim) * 4
            &&& s.token_bytes(Buf::MlaVCache(li)) == c.n_heads * c.v_head_dim * 4
        }),
{
}

/// Each layer has a key cache followed by a value cache, and no others are copied or saved.
pub proof fn lemma_caches(s: Sizes, li: usize)
    requires
        li < s.cfg.n_layers,
    ensures
        s.kv_buffers().len() == 2 * s.cfg.n_layers,
        s.cfg.kv_lora_rank == 0 ==> s.kv_buffers()[2 * li] == Buf::KCache(li) && s.kv_buffers()[2
            * li + 1] == Buf::VCache(li),
        s.cfg.kv_lora_rank > 0 ==> s.kv_buffers()[2 * li] == Buf::MlaKCache(li) && s.kv_buffers()[2
            * li + 1] == Buf::MlaVCache(li),
{
    lemma_pair_at(s.cfg.kv_lora_rank == 0, s.cfg.n_layers as nat, li);
}

proof fn lemma_pair_at(dense: bool, n: nat, li: usize)
    requires
        n <= usize::MAX,
    ensures
        ({
            let f = if dense {
                crate::buffers::kv_pair()
            } else {
                crate::buffers::mla_pair()
            };
            let list = crate::buffers::pairs(f, n);
            &&& list.len() == 2 * n
            &&& li < n ==> list[2 * li as int] == f(li).0 && list[2 * li as int + 1] == f(li).1
        }),
    decreases n,
{
    if n > 0 {
        lemma_pair_at(dense, (n - 1) as nat, li);
    }
}

/// Buffers that the host reads or writes are pinned, all others lie on the device; the state of
/// linear attention starts out as zeros; and every buffer is as large as its size says.
pub proof fn lemma_allocation(s: Sizes, buf: Buf)
    requires
        0 <= s.bytes(buf) <= usize::MAX,
    ensures
        ({
            let a = s.allocation(buf);
            &&& a.buf == buf
            &&& a.bytes == s.bytes(buf)
            &&& a.memory == Memory::Pinned <==> (buf == Buf::TokensHost || buf == Buf::PosHost
                || buf == Buf::SlotsHost || buf == Buf::RunsHost || buf == Buf::RunMaskHost || buf
                == Buf::OutTokHost || buf == Buf::CountsHost)
            &&& a.memory == Memory::Device || a.memory == Memory::Pinned
            &&& a.zeroed <==> (buf is GdnState || buf is GdnConv)
        }),
{
}

impl Step {
    /// Every width that a projection contracts over is at most `w`.
    pub open spec fn no_wider(self, w: int) -> bool {
        let c = self.cfg;
        &&& c.d_model <= w && c.intermediate_size <= w
        &&& c.n_shared_experts * self.expert_width() <= w
        &&& c.kv_lora_rank > 0 ==> c.q_lora_rank <= w && c.kv_lora_rank <= w && c.n_heads
            * c.v_head_dim <= w
        &&& c.kv_lora_rank == 0 ==> c.n_heads * c.head_dim <= w && c.gdn_v_heads * c.gdn_head_dim
            <= w
    }

    /// A step can be replayed from a graph exactly if it only decodes, for one to eight rows, in
    /// half precision, with inputs that the row kernel can stage; notes nothing; and computes its
    /// experts, if there are any, together and on the device.
    pub proof fn lemma_replayable(self)
        ensures
            self.capture_ok() <==> {
                &&& self.decode_only
                &&& !self.profile && !self.prefetch && !self.layer_dump
                &&& self.cfg.dtype == ModelDType::F16
                &&& 1 <= self.rows <= 8
                &&& self.no_wider(12288)
                &&& self.cfg.num_experts == 0 || (self.expert_slots >= self.cfg.num_experts && (
                self.moe_grouped || self.q4_experts))
            },
    {
    }
}

/// A step of a model runs as a graph exactly if graphs are on and it can be replayed.
pub proof fn lemma_graph_step(v: ModelView, n: int, decode_only: bool)
    requires
        0 <= n <= v.rows <= i32::MAX,
    ensures
        v.graph_step(n, decode_only) <==> v.graph_enabled && v.step(n, decode_only).capture_ok(),
{
}

} // verus!
