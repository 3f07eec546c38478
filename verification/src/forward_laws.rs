//! Running the operations of a step computes the network.

use vstd::prelude::*;

use crate::batched::lemma_fits_fewer;
use crate::batched::ModelView;
use crate::device::Buf;
use crate::device::DeviceCopy;
use crate::device::Op;
use crate::device::ProfPoint;
use crate::device::Run;
use crate::device::Tensor;
use crate::forward::layer_weight;
use crate::forward::opt;
use crate::forward::LayerDev;
use crate::forward::Step;
use crate::meaning::after;
use crate::meaning::after_first;
use crate::meaning::choice_weights;
use crate::meaning::chosen;
use crate::meaning::effect;
use crate::meaning::embedded;
use crate::meaning::gate_half;
use crate::meaning::has_shape;
use crate::meaning::layer_param;
use crate::meaning::lemma_after_both;
use crate::meaning::lemma_after_prefix;
use crate::meaning::normed;
use crate::meaning::plus;
use crate::meaning::product;
use crate::meaning::same_shape;
use crate::meaning::sigmoid_gated;
use crate::meaning::Buffers;
use crate::meaning::Matrix;
use crate::meaning::Param;
use crate::network::layer_of;
use crate::network::project;

verus! {

/// Every buffer that outlives the step is as it was.
pub open spec fn caches_kept(before: Buffers, now: Buffers) -> bool {
    forall|b: Buf| layer_of(b) is Some ==> #[trigger] now[b] == before[b]
}

proof fn lemma_after_opt(b: bool, op: Op, st: Buffers)
    ensures
        after(opt(b, op), st) == if b {
            effect(op, st)
        } else {
            st
        },
{
    reveal_with_fuel(after_first, 2);
}

impl Step {
    proof fn lemma_mlp_part(self, li: usize, l: LayerDev, st: Buffers)
        requires
            self.fits(),
            has_shape(st[Buf::X], self.rows as int, self.width()),
            has_shape(st[Buf::Xn2], self.rows as int, self.width()),
        ensures
            after(self.mlp_ops(li, l), st)[Buf::X] == plus(
                st[Buf::X],
                self.mlp_part(li, st[Buf::Xn2]),
            ),
            caches_kept(st, after(self.mlp_ops(li, l), st)),
    {
        reveal_with_fuel(after_first, 6);
        self.lemma_fits();
    }

    /// The shared experts are added to the routed sum.
    proof fn lemma_shared_part(self, li: usize, st: Buffers)
        requires
            self.fits(),
            has_shape(st[Buf::HAcc], self.rows as int, self.width()),
            has_shape(st[Buf::Xn2], self.rows as int, self.width()),
        ensures
            ({
                let now = after(self.shared_ops(li), st);
                &&& now[Buf::HAcc] == plus(st[Buf::HAcc], self.shared_part(li, st[Buf::Xn2]))
                &&& now[Buf::X] == st[Buf::X]
                &&& caches_kept(st, now)
            }),
    {
        reveal_with_fuel(after_first, 6);
        self.lemma_fits();
    }

    /// The routing of the step stands in the buffers.
    spec fn is_routed(self, li: usize, st: Buffers) -> bool {
        let scores = project(st[Buf::Xn2], li, Tensor::MoeRouter, self.cfg.num_experts as int);
        &&& has_shape(st[Buf::Xn2], self.rows as int, self.width())
        &&& st[Buf::ExpIds] == chosen(scores, self.choices())
        &&& st[Buf::ExpW] == choice_weights(
            scores,
            self.choices(),
            self.cfg.moe_norm_topk,
            self.cfg.moe_routed_scale,
        )
    }

    /// The grouped kernels leave the routed sum.
    proof fn lemma_grouped_part(self, li: usize, st: Buffers)
        requires
            self.fits(),
            self.is_routed(li, st),
        ensures
            ({
                let now = after(self.grouped_ops(li), st);
                &&& now[Buf::HAcc] == self.routed_part(li, st[Buf::Xn2])
                &&& now[Buf::X] == st[Buf::X]
                &&& now[Buf::Xn2] == st[Buf::Xn2]
                &&& caches_kept(st, now)
            }),
    {
        reveal_with_fuel(after_first, 5);
        self.lemma_fits();
    }

    /// The work expert by expert leaves the same routed sum.
    proof fn lemma_segmented_part(self, li: usize, st: Buffers)
        requires
            self.fits(),
            self.is_routed(li, st),
        ensures
            ({
                let now = after(self.segmented_ops(li), st);
                &&& now[Buf::HAcc] == self.routed_part(li, st[Buf::Xn2])
                &&& now[Buf::X] == st[Buf::X]
                &&& now[Buf::Xn2] == st[Buf::Xn2]
                &&& caches_kept(st, now)
            }),
    {
        reveal_with_fuel(after_first, 9);
        self.lemma_fits();
    }

    /// A layer with experts.
    proof fn lemma_moe_part(self, li: usize, l: LayerDev, st: Buffers)
        requires
            self.fits(),
            self.cfg.num_experts > 0,
            l.has_router,
            has_shape(st[Buf::X], self.rows as int, self.width()),
            has_shape(st[Buf::Xn2], self.rows as int, self.width()),
        ensures
            ({
                let now = after(self.moe_ops(li, l), st);
                &&& now[Buf::X] == self.second_half(li, l, st[Buf::Xn2], st[Buf::X])
                &&& caches_kept(st, now)
            }),
    {
        self.lemma_fits();
        let ops = self.moe_ops(li, l);
        if self.spec_topk() as i32 != 0 {
            let start = seq![ops[0], ops[1]];
            let s1 = after(start, st);
            assert(self.is_routed(li, s1) && s1[Buf::X] == st[Buf::X] && s1[Buf::Xn2]
                == st[Buf::Xn2] && caches_kept(st, s1)) by {
                reveal_with_fuel(after_first, 3);
            }
            if self.offloaded() {
                let rest = seq![ops[2]];
                assert(ops =~= start + rest);
                lemma_after_both(start, rest, st);
                assert(after(rest, s1) == effect(ops[2], s1)) by {
                    reveal_with_fuel(after_first, 2);
                }
            } else {
                let ready = opt(self.prefetch, Op::PrefetchReady { layer: li });
                let experts = if self.grouped() {
                    self.grouped_ops(li)
                } else {
                    self.segmented_ops(li)
                };
                let shared = if l.has_shared {
                    self.shared_ops(li)
                } else {
                    Seq::empty()
                };
                let last = seq![self.add_residual(Buf::X, Buf::HAcc)];
                assert(ops =~= start + (ready + experts + shared + last));
                lemma_after_both(start, ready + experts + shared + last, st);
                lemma_after_both(ready + experts + shared, last, s1);
                lemma_after_both(ready + experts, shared, s1);
                lemma_after_both(ready, experts, s1);
                lemma_after_opt(self.prefetch, Op::PrefetchReady { layer: li }, s1);
                let s2 = after(experts, s1);
                if self.grouped() {
                    self.lemma_grouped_part(li, s1);
                } else {
                    self.lemma_segmented_part(li, s1);
                }
                let s3 = after(shared, s2);
                if l.has_shared {
                    self.lemma_shared_part(li, s2);
                }
                assert(after(last, s3) == effect(last[0], s3)) by {
                    reveal_with_fuel(after_first, 2);
                }
            }
        }
    }

    /// Every buffer that outlives the step is as it was, but for those of layer `li`, which hold
    /// what its attention leaves in them.
    pub open spec fn caches_moved(
        self,
        li: usize,
        l: LayerDev,
        x: Matrix,
        before: Buffers,
        now: Buffers,
    ) -> bool {
        forall|b: Buf|
            layer_of(b) is Some ==> #[trigger] now[b] == if layer_of(b) == Some(li) {
                self.cache_after(li, l, x, before, b)
            } else {
                before[b]
            }
    }

    proof fn lemma_low_rank_queries(self, li: usize, st: Buffers)
        requires
            self.fits(),
            has_shape(st[Buf::Xn], self.rows as int, self.width()),
        ensures
            ({
                let now = after(self.mla_project_ops(li), st);
                let x = st[Buf::Xn];
                &&& now[Buf::Q] == self.latent_queries(li, x)
                &&& now[Buf::MlaKv] == self.expanded(li, x)
                &&& now[Buf::MlaKRope] == self.rotary_keys(li, x)
                &&& now[Buf::X] == st[Buf::X]
                &&& caches_kept(st, now)
            }),
    {
        self.lemma_fits();
        let ops = self.mla_project_ops(li);
        let low_rank = self.cfg.q_lora_rank > 0;
        let k: int = if low_rank {
            2
        } else {
            0
        };
        let narrow = ops.subrange(0, k);
        let rest = ops.subrange(k, ops.len() as int);
        assert(ops =~= narrow + rest);
        lemma_after_both(narrow, rest, st);
        let s1 = after(narrow, st);
        let q_src = if low_rank {
            Buf::MlaQLoraN
        } else {
            Buf::Xn
        };
        assert(s1[Buf::X] == st[Buf::X] && s1[Buf::Xn] == st[Buf::Xn] && caches_kept(st, s1)) by {
            reveal_with_fuel(after_first, 3);
        }
        assert(s1[q_src] == self.narrow_queries(li, st[Buf::Xn])) by {
            reveal_with_fuel(after_first, 3);
        }
        self.lemma_low_rank_rest(li, rest, q_src, s1);
    }

    /// What the queries of low-rank attention are projected from.
    spec fn narrow_queries(self, li: usize, x: Matrix) -> Matrix {
        if self.cfg.q_lora_rank > 0 {
            normed(
                project(x, li, Tensor::MlaQA, self.cfg.q_lora_rank as int),
                layer_param(li, Tensor::MlaQANorm),
            )
        } else {
            x
        }
    }

    proof fn lemma_low_rank_rest(self, li: usize, rest: Seq<Op>, q_src: Buf, st: Buffers)
        requires
            self.fits(),
            has_shape(st[Buf::Xn], self.rows as int, self.width()),
            rest == self.mla_project_ops(li).subrange(
                if self.cfg.q_lora_rank > 0 {
                    2
                } else {
                    0int
                },
                self.mla_project_ops(li).len() as int,
            ),
            q_src == if self.cfg.q_lora_rank > 0 {
                Buf::MlaQLoraN
            } else {
                Buf::Xn
            },
            st[q_src] == self.narrow_queries(li, st[Buf::Xn]),
        ensures
            ({
                let now = after(rest, st);
                let x = st[Buf::Xn];
                &&& now[Buf::Q] == self.latent_queries(li, x)
                &&& now[Buf::MlaKv] == self.expanded(li, x)
                &&& now[Buf::MlaKRope] == self.rotary_keys(li, x)
                &&& now[Buf::X] == st[Buf::X]
                &&& caches_kept(st, now)
            }),
    {
        self.lemma_fits();
        let x = st[Buf::Xn];
        assert(rest.len() == 10);
        let s1 = effect(rest[0], st);
        let s2 = effect(rest[1], s1);
        let s3 = effect(rest[2], s2);
        assert(s3[Buf::X] == st[Buf::X] && s3[Buf::Xn] == x && caches_kept(st, s3));
        let s4 = effect(rest[3], s3);
        let s5 = effect(rest[4], s4);
        let s6 = effect(rest[5], s5);
        let s7 = effect(rest[6], s6);
        let s8 = effect(rest[7], s7);
        let one = 1int;
        let rope = self.cfg.qk_rope_head_dim as int;
        assert(one * rope == rope) by (nonlinear_arith)
            requires
                one == 1,
        ;
        assert(s4[Buf::MlaKvA] == self.compressed(li, x));
        assert(s8[Buf::MlaKRope] == self.rotary_keys(li, x));
        let s9 = effect(rest[8], s8);
        assert(s9[Buf::MlaKv] == self.expanded(li, x));
        let s10 = effect(rest[9], s9);
        assert(after(rest, st) == s10) by {
            reveal_with_fuel(after_first, 11);
        }
    }

    proof fn lemma_low_rank_attend(self, li: usize, x: Matrix, st: Buffers)
        requires
            self.fits(),
            has_shape(st[Buf::X], self.rows as int, self.width()),
            has_shape(x, self.rows as int, self.width()),
            st[Buf::Q] == self.latent_queries(li, x),
            st[Buf::MlaKv] == self.expanded(li, x),
            st[Buf::MlaKRope] == self.rotary_keys(li, x),
        ensures
            ({
                let now = after(self.mla_attend_ops(li), st);
                &&& now[Buf::X] == plus(st[Buf::X], self.low_rank_attention(li, x, st))
                &&& forall|b: Buf|
                    layer_of(b) is Some ==> #[trigger] now[b] == match b {
                        Buf::MlaKCache(j) if j == li => self.latent_key_cache(li, x, st),
                        Buf::MlaVCache(j) if j == li => self.latent_value_cache(li, x, st),
                        _ => st[b],
                    }
            }),
    {
        self.lemma_fits();
        let ops = self.mla_attend_ops(li);
        assert(ops.len() == 4);
        let s1 = effect(ops[0], st);
        let s2 = effect(ops[1], s1);
        let s3 = effect(ops[2], s2);
        let s4 = effect(ops[3], s3);
        assert(after(ops, st) == s4) by {
            reveal_with_fuel(after_first, 5);
        }
        assert(s1[Buf::MlaKCache(li)] == self.latent_key_cache(li, x, st));
        assert(s1[Buf::MlaVCache(li)] == self.latent_value_cache(li, x, st));
    }

    proof fn lemma_linear_part(self, li: usize, l: LayerDev, st: Buffers)
        requires
            self.fits(),
            has_shape(st[Buf::X], self.rows as int, self.width()),
            has_shape(st[Buf::Xn], self.rows as int, self.width()),
        ensures
            ({
                let now = after(self.gdn_ops(li, l), st);
                let x = st[Buf::Xn];
                &&& now[Buf::X] == plus(st[Buf::X], self.linear_attention(li, x, st))
                &&& self.cfg.kv_lora_rank == 0 && l.has_gdn ==> self.caches_moved(
                    li,
                    l,
                    x,
                    st,
                    now,
                )
            }),
    {
        self.lemma_fits();
        let ops = self.gdn_ops(li, l);
        let x = st[Buf::Xn];
        assert(ops.len() == 10);
        let s1 = effect(ops[0], st);
        let s2 = effect(ops[1], s1);
        let s3 = effect(ops[2], s2);
        let s4 = effect(ops[3], s3);
        let s5 = effect(ops[4], s4);
        let s6 = effect(ops[5], s5);
        let s7 = effect(ops[6], s6);
        let s8 = effect(ops[7], s7);
        let s9 = effect(ops[8], s8);
        let s10 = effect(ops[9], s9);
        assert(after(ops, st) == s10) by {
            reveal_with_fuel(after_first, 11);
        }
        assert(s4[Buf::GdnQkvPre] == self.linear_rows(li, x));
        assert(s6[Buf::GdnQkv] == self.linear_qkv(li, x, st));
        assert(s9[Buf::Proj] == self.linear_attention(li, x, st));
    }

    proof fn lemma_qkv_part(self, li: usize, l: LayerDev, st: Buffers)
        requires
            self.fits(),
            has_shape(st[Buf::Xn], self.rows as int, self.width()),
        ensures
            ({
                let now = after(self.qkv_ops(li, l), st);
                let x = st[Buf::Xn];
                let q_out = if self.cfg.attn_output_gate {
                    Buf::Qg
                } else {
                    Buf::Q
                };
                &&& now[q_out] == self.query_rows(li, x)
                &&& now[Buf::K] == project(x, li, Tensor::Wk, self.key_width())
                &&& now[Buf::V] == project(x, li, Tensor::Wv, self.key_width())
                &&& now[Buf::X] == st[Buf::X]
                &&& caches_kept(st, now)
            }),
    {
        self.lemma_fits();
        reveal_with_fuel(after_first, 4);
    }

    proof fn lemma_rotate_part(self, li: usize, l: LayerDev, x: Matrix, st: Buffers)
        requires
            self.fits(),
            has_shape(x, self.rows as int, self.width()),
            st[if self.cfg.attn_output_gate {
                Buf::Qg
            } else {
                Buf::Q
            }] == self.query_rows(li, x),
            st[Buf::K] == project(x, li, Tensor::Wk, self.key_width()),
            st[Buf::V] == project(x, li, Tensor::Wv, self.key_width()),
        ensures
            ({
                let now = after(self.rotate_ops(li, l), st);
                &&& now[Buf::Q] == self.queries(li, l, x)
                &&& now[Buf::K] == self.keys(li, l, x)
                &&& now[Buf::V] == self.values(li, l, x)
                &&& self.cfg.attn_output_gate ==> now[Buf::AttnGate] == gate_half(
                    self.query_rows(li, x),
                    self.query_width(),
                )
                &&& now[Buf::X] == st[Buf::X]
                &&& caches_kept(st, now)
            }),
    {
        self.lemma_fits();
        let c = self.cfg;
        let rows = self.rows;
        let heads = c.n_heads as i32;
        let kv_heads = c.n_kv_heads as i32;
        let dim = c.head_dim as i32;
        let split = Op::QgSplit { rows, heads, dim };
        let bias_q = Op::AddBias {
            x: Buf::Q,
            bias: layer_weight(li, Tensor::Bq, DeviceCopy::F32),
            rows,
            cols: self.spec_nq() as i32,
        };
        let bias_k = Op::AddBias {
            x: Buf::K,
            bias: layer_weight(li, Tensor::Bk, DeviceCopy::F32),
            rows,
            cols: self.spec_nkv() as i32,
        };
        let bias_v = Op::AddBias {
            x: Buf::V,
            bias: layer_weight(li, Tensor::Bv, DeviceCopy::F32),
            rows,
            cols: self.spec_nkv() as i32,
        };
        let norm = Op::QkNorm { layer: li, rows, heads, kv_heads, dim };
        let turn = Op::Rope {
            q: Buf::Q,
            k: Buf::K,
            rows,
            heads,
            kv_heads,
            dim,
            rot: self.rotary_dim as i32,
        };
        let o1 = opt(c.attn_output_gate, split);
        let o2 = opt(l.has_bq, bias_q);
        let o3 = opt(l.has_bk, bias_k);
        let o4 = opt(l.has_bv, bias_v);
        let o5 = opt(l.has_q_norm, norm);
        let o6 = seq![turn];
        assert(self.rotate_ops(li, l) == o1 + o2 + o3 + o4 + o5 + o6);
        lemma_after_both(o1 + o2 + o3 + o4 + o5, o6, st);
        lemma_after_both(o1 + o2 + o3 + o4, o5, st);
        lemma_after_both(o1 + o2 + o3, o4, st);
        lemma_after_both(o1 + o2, o3, st);
        lemma_after_both(o1, o2, st);
        let s1 = after(o1, st);
        lemma_after_opt(c.attn_output_gate, split, st);
        let s2 = after(o2, s1);
        lemma_after_opt(l.has_bq, bias_q, s1);
        let s3 = after(o3, s2);
        lemma_after_opt(l.has_bk, bias_k, s2);
        let s4 = after(o4, s3);
        lemma_after_opt(l.has_bv, bias_v, s3);
        let s5 = after(o5, s4);
        lemma_after_opt(l.has_q_norm, norm, s4);
        assert(after(o6, s5) == effect(turn, s5)) by {
            reveal_with_fuel(after_first, 2);
        }
        assert(has_shape(s1[Buf::Q], rows as int, self.query_width()));
        assert(has_shape(s5[Buf::Q], rows as int, self.query_width()));
        assert(has_shape(s5[Buf::K], rows as int, self.key_width()));
    }

    /// Runs of prompt rows, one after the other.
    proof fn lemma_runs(
        self,
        li: usize,
        l: LayerDev,
        x: Matrix,
        runs: Seq<Run>,
        st: Buffers,
        before: Buffers,
    )
        requires
            self.fits(),
            self.spec_half(),
            !self.paged,
            has_shape(x, self.rows as int, self.width()),
            st[Buf::Q] == self.queries(li, l, x),
            st[Buf::KCache(li)] == self.key_cache(li, l, x, before),
            st[Buf::VCache(li)] == self.value_cache(li, l, x, before),
            st[Buf::Attn] == self.attended(
                st[Buf::Q],
                st[Buf::KCache(li)],
                st[Buf::VCache(li)],
                Seq::empty(),
            ),
        ensures
            ({
                let now = after(self.run_ops(li, runs), st);
                &&& now[Buf::Attn] == self.attended(
                    st[Buf::Q],
                    st[Buf::KCache(li)],
                    st[Buf::VCache(li)],
                    runs,
                )
                &&& forall|b: Buf| b != Buf::Attn ==> #[trigger] now[b] == st[b]
                &&& same_shape(now[Buf::Attn], st[Buf::Q])
            }),
        decreases runs.len(),
    {
        self.lemma_fits();
        if runs.len() == 0 {
            assert(runs =~= Seq::empty());
        } else {
            let shorter = runs.drop_last();
            self.lemma_runs(li, l, x, shorter, st, before);
            let ops = self.run_ops(li, runs);
            let fewer = self.run_ops(li, shorter);
            lemma_after_prefix(ops, fewer, st, shorter.len());
            assert(after(ops, st) == effect(ops.last(), after(fewer, st)));
        }
    }

    proof fn lemma_attend_part(self, li: usize, l: LayerDev, runs: Seq<Run>, x: Matrix, st: Buffers)
        requires
            self.fits(),
            has_shape(x, self.rows as int, self.width()),
            st[Buf::Q] == self.queries(li, l, x),
            st[Buf::K] == self.keys(li, l, x),
            st[Buf::V] == self.values(li, l, x),
        ensures
            ({
                let now = after(self.attend_ops(li, runs), st);
                &&& now[Buf::Attn] == self.attended(
                    st[Buf::Q],
                    self.key_cache(li, l, x, st),
                    self.value_cache(li, l, x, st),
                    if self.spec_half() && !self.paged {
                        runs
                    } else {
                        Seq::empty()
                    },
                )
                &&& same_shape(now[Buf::Attn], st[Buf::Q])
                &&& now[Buf::X] == st[Buf::X]
                &&& now[Buf::AttnGate] == st[Buf::AttnGate]
                &&& forall|b: Buf|
                    layer_of(b) is Some ==> #[trigger] now[b] == match b {
                        Buf::KCache(j) if j == li => self.key_cache(li, l, x, st),
                        Buf::VCache(j) if j == li => self.value_cache(li, l, x, st),
                        _ => st[b],
                    }
            }),
    {
        self.lemma_fits();
        let ops = self.attend_ops(li, runs);
        let first = ops.subrange(0, 3);
        let rest = ops.subrange(3, ops.len() as int);
        assert(ops =~= first + rest);
        lemma_after_both(first, rest, st);
        let s1 = effect(ops[0], st);
        let s2 = effect(ops[1], s1);
        let s3 = effect(ops[2], s2);
        assert(after(first, st) == s3) by {
            reveal_with_fuel(after_first, 4);
        }
        assert(s3[Buf::KCache(li)] == self.key_cache(li, l, x, st));
        assert(s3[Buf::VCache(li)] == self.value_cache(li, l, x, st));
        assert(s3[Buf::Attn] == self.attended(
            st[Buf::Q],
            self.key_cache(li, l, x, st),
            self.value_cache(li, l, x, st),
            Seq::empty(),
        ));
        if self.spec_half() && !self.paged {
            assert(rest =~= self.run_ops(li, runs));
            self.lemma_runs(li, l, x, runs, s3, st);
        } else {
            assert(rest =~= Seq::empty());
        }
    }

    proof fn lemma_attn_out_part(self, li: usize, l: LayerDev, x: Matrix, st: Buffers)
        requires
            self.fits(),
            has_shape(x, self.rows as int, self.width()),
            has_shape(st[Buf::X], self.rows as int, self.width()),
            has_shape(st[Buf::Attn], self.rows as int, self.query_width()),
            self.cfg.attn_output_gate ==> st[Buf::AttnGate] == gate_half(
                self.query_rows(li, x),
                self.query_width(),
            ),
        ensures
            ({
                let now = after(self.attn_out_ops(li, l), st);
                &&& now[Buf::X] == plus(
                    st[Buf::X],
                    project(
                        if self.cfg.attn_output_gate {
                            sigmoid_gated(
                                st[Buf::Attn],
                                gate_half(self.query_rows(li, x), self.query_width()),
                            )
                        } else {
                            st[Buf::Attn]
                        },
                        li,
                        Tensor::Wo,
                        self.width(),
                    ),
                )
                &&& caches_kept(st, now)
            }),
    {
        self.lemma_fits();
        let ops = self.attn_out_ops(li, l);
        let gate = Op::AttnGateApply { n: (self.rows * self.spec_nq()) as i32 };
        let o1 = opt(self.cfg.attn_output_gate, gate);
        let k = o1.len() as int;
        let rest = ops.subrange(k, ops.len() as int);
        assert(ops =~= o1 + rest);
        lemma_after_both(o1, rest, st);
        lemma_after_opt(self.cfg.attn_output_gate, gate, st);
        let s1 = after(o1, st);
        assert(rest.len() == 2);
        let s2 = effect(rest[0], s1);
        let s3 = effect(rest[1], s2);
        assert(after(rest, s1) == s3) by {
            reveal_with_fuel(after_first, 3);
        }
    }

    /// The attention of a layer is added to the stream, and its caches take the step's rows.
    pub proof fn lemma_attention_part(
        self,
        li: usize,
        l: LayerDev,
        runs: Seq<Run>,
        st: Buffers,
    )
        requires
            self.fits(),
            has_shape(st[Buf::X], self.rows as int, self.width()),
            has_shape(st[Buf::Xn], self.rows as int, self.width()),
        ensures
            ({
                let now = after(self.attention_ops(li, l, runs), st);
                let x = st[Buf::Xn];
                &&& now[Buf::X] == plus(st[Buf::X], self.attention_part(li, l, runs, x, st))
                &&& self.caches_moved(li, l, x, st, now)
            }),
    {
        let x = st[Buf::Xn];
        if self.cfg.kv_lora_rank > 0 {
            let (a, b) = (self.mla_project_ops(li), self.mla_attend_ops(li));
            lemma_after_both(a, b, st);
            self.lemma_low_rank_queries(li, st);
            self.lemma_low_rank_attend(li, x, after(a, st));
        } else if l.has_gdn {
            self.lemma_linear_part(li, l, st);
        } else {
            let (a, b, c, d) = (
                self.qkv_ops(li, l),
                self.rotate_ops(li, l),
                self.attend_ops(li, runs),
                self.attn_out_ops(li, l),
            );
            lemma_after_both(a + b + c, d, st);
            lemma_after_both(a + b, c, st);
            lemma_after_both(a, b, st);
            let s1 = after(a, st);
            self.lemma_qkv_part(li, l, st);
            let s2 = after(b, s1);
            self.lemma_rotate_part(li, l, x, s1);
            let s3 = after(c, s2);
            self.lemma_attend_part(li, l, runs, x, s2);
            assert(self.key_cache(li, l, x, s2) == self.key_cache(li, l, x, st));
            assert(self.value_cache(li, l, x, s2) == self.value_cache(li, l, x, st));
            self.lemma_attn_out_part(li, l, x, s3);
        }
    }

    /// The first half of a layer.
    proof fn lemma_first_half(self, li: usize, l: LayerDev, runs: Seq<Run>, st: Buffers)
        requires
            self.fits(),
            has_shape(st[Buf::X], self.rows as int, self.width()),
        ensures
            ({
                let now = after(self.first_half_ops(li, l, runs), st);
                let x = normed(st[Buf::X], layer_param(li, Tensor::RmsAttn));
                &&& now[Buf::X] == self.middle(li, l, runs, st[Buf::X], st)
                &&& self.caches_moved(li, l, x, st, now)
            }),
    {
        let start = Op::Record { point: ProfPoint::LayerStart(li) };
        let fetch = Op::PrefetchLayerBegin { layer: li };
        let norm = self.layer_norm(Buf::X, li, Tensor::RmsAttn, Buf::Xn, self.width());
        let done = Op::Record { point: ProfPoint::AttnDone(li) };
        let dump = Op::DumpMid { layer: li, rows: self.rows, d: self.spec_d() };
        let o1 = opt(self.profiled(li), start);
        let o2 = opt(self.prefetch, fetch);
        let o3 = seq![norm];
        let o4 = self.attention_ops(li, l, runs);
        let o5 = opt(self.profiled(li), done);
        let o6 = opt(self.layer_dump, dump);
        assert(self.first_half_ops(li, l, runs) == o1 + o2 + o3 + o4 + o5 + o6);
        lemma_after_both(o1 + o2 + o3 + o4 + o5, o6, st);
        lemma_after_both(o1 + o2 + o3 + o4, o5, st);
        lemma_after_both(o1 + o2 + o3, o4, st);
        lemma_after_both(o1 + o2, o3, st);
        lemma_after_both(o1, o2, st);
        lemma_after_opt(self.profiled(li), start, st);
        lemma_after_opt(self.prefetch, fetch, st);
        let s1 = after(o3, st);
        assert(s1 == effect(norm, st)) by {
            reveal_with_fuel(after_first, 2);
        }
        self.lemma_attention_part(li, l, runs, s1);
        let s2 = after(o4, s1);
        lemma_after_opt(self.profiled(li), done, s2);
        lemma_after_opt(self.layer_dump, dump, s2);
        assert(self.attention_part(li, l, runs, s1[Buf::Xn], s1) == self.attention_part(
            li,
            l,
            runs,
            s1[Buf::Xn],
            st,
        ));
        assert forall|b: Buf| layer_of(b) is Some implies #[trigger] s2[b] == if layer_of(b)
            == Some(li) {
            self.cache_after(li, l, s1[Buf::Xn], st, b)
        } else {
            st[b]
        } by {
            assert(s1[b] == st[b]);
        }
    }

    /// Snapshots leave the buffers as they are.
    proof fn lemma_dumps(self, li: usize, l: LayerDev, st: Buffers)
        ensures
            after(self.dump_ops(li, l), st) == st,
    {
        let ops = self.dump_ops(li, l);
        assert forall|i: int| 0 <= i < ops.len() implies #[trigger] ops[i] is DumpLayer
            || ops[i] is DumpRouting || ops[i] is DumpMoe by {
            let trace = self.trace_ops(l);
            assert(forall|j: int| 0 <= j < trace.len() ==> #[trigger] trace[j] is DumpMoe);
        }
        lemma_quiet(ops, st, ops.len());
    }

    /// The second half of a layer.
    proof fn lemma_second_half(self, li: usize, l: LayerDev, st: Buffers)
        requires
            self.fits(),
            has_shape(st[Buf::X], self.rows as int, self.width()),
        ensures
            ({
                let now = after(self.second_half_ops(li, l), st);
                let x = normed(st[Buf::X], layer_param(li, Tensor::RmsMlp));
                &&& now[Buf::X] == self.second_half(li, l, x, st[Buf::X])
                &&& caches_kept(st, now)
            }),
    {
        let norm = self.layer_norm(Buf::X, li, Tensor::RmsMlp, Buf::Xn2, self.width());
        let done = Op::Record { point: ProfPoint::MlpDone(li) };
        let fetch = Op::PrefetchLayerEnd { layer: li };
        let o1 = seq![norm];
        let o2 = if self.is_moe(l) {
            self.moe_ops(li, l)
        } else {
            self.mlp_ops(li, l)
        };
        let o3 = self.dump_ops(li, l);
        let o4 = opt(self.profiled(li), done);
        let o5 = opt(self.prefetch, fetch);
        assert(self.second_half_ops(li, l) == o1 + o2 + o3 + o4 + o5);
        lemma_after_both(o1 + o2 + o3 + o4, o5, st);
        lemma_after_both(o1 + o2 + o3, o4, st);
        lemma_after_both(o1 + o2, o3, st);
        lemma_after_both(o1, o2, st);
        let s1 = after(o1, st);
        assert(s1 == effect(norm, st)) by {
            reveal_with_fuel(after_first, 2);
        }
        if self.is_moe(l) {
            self.lemma_moe_part(li, l, s1);
        } else {
            self.lemma_mlp_part(li, l, s1);
        }
        let s2 = after(o2, s1);
        self.lemma_dumps(li, l, s2);
        lemma_after_opt(self.profiled(li), done, s2);
        lemma_after_opt(self.prefetch, fetch, s2);
    }

    /// The first `n` layers have run: the stream is theirs, each of their caches holds what its
    /// layer's attention leaves in it, and the others are as they were.
    pub open spec fn after_layers(
        self,
        layers: Seq<LayerDev>,
        runs: Seq<Run>,
        before: Buffers,
        now: Buffers,
        n: nat,
    ) -> bool {
        &&& now[Buf::X] == self.stream(layers, runs, before, n)
        &&& forall|b: Buf|
            layer_of(b) matches Some(li) ==> #[trigger] now[b] == if li < n {
                self.cache_after(
                    li,
                    layers[li as int],
                    normed(
                        self.stream(layers, runs, before, li as nat),
                        layer_param(li, Tensor::RmsAttn),
                    ),
                    before,
                    b,
                )
            } else {
                before[b]
            }
    }

    proof fn lemma_layers(
        self,
        layers: Seq<LayerDev>,
        runs: Seq<Run>,
        before: Buffers,
        st: Buffers,
        n: nat,
    )
        requires
            self.fits(),
            n <= layers.len() <= usize::MAX,
            self.after_layers(layers, runs, before, st, 0),
        ensures
            self.after_layers(
                layers,
                runs,
                before,
                after(self.layers_ops(layers, runs, n), st),
                n,
            ),
            has_shape(
                self.stream(layers, runs, before, n),
                self.rows as int,
                self.width(),
            ),
        decreases n,
    {
        if n > 0 {
            let k = (n - 1) as nat;
            let li = k as usize;
            let l = layers[k as int];
            self.lemma_layers(layers, runs, before, st, k);
            let fewer = self.layers_ops(layers, runs, k);
            let (a, b) = (self.first_half_ops(li, l, runs), self.second_half_ops(li, l));
            lemma_after_both(fewer, a + b, st);
            let s1 = after(fewer, st);
            lemma_after_both(a, b, s1);
            self.lemma_first_half(li, l, runs, s1);
            let s2 = after(a, s1);
            let x = normed(s1[Buf::X], layer_param(li, Tensor::RmsAttn));
            assert forall|b: Buf| layer_of(b) == Some(li) implies #[trigger] s1[b] == before[b] by {
            }
            self.lemma_own_caches(li, l, runs, x, s1, before);
            self.lemma_second_half(li, l, s2);
        } else {
            self.lemma_fits();
        }
    }

    /// The attention of a layer depends on its own caches only.
    pub proof fn lemma_own_caches(
        self,
        li: usize,
        l: LayerDev,
        runs: Seq<Run>,
        x: Matrix,
        a: Buffers,
        b: Buffers,
    )
        requires
            forall|c: Buf| layer_of(c) == Some(li) ==> #[trigger] a[c] == b[c],
        ensures
            self.attention_part(li, l, runs, x, a) == self.attention_part(li, l, runs, x, b),
            forall|c: Buf|
                layer_of(c) == Some(li) ==> #[trigger] self.cache_after(li, l, x, a, c)
                    == self.cache_after(li, l, x, b, c),
    {
        assert(a[Buf::KCache(li)] == b[Buf::KCache(li)]);
        assert(a[Buf::VCache(li)] == b[Buf::VCache(li)]);
        assert(a[Buf::MlaKCache(li)] == b[Buf::MlaKCache(li)]);
        assert(a[Buf::MlaVCache(li)] == b[Buf::MlaVCache(li)]);
        assert(a[Buf::GdnConv(li)] == b[Buf::GdnConv(li)]);
        assert(a[Buf::GdnState(li)] == b[Buf::GdnState(li)]);
    }

    /// Running a step's operations, whatever the buffers held before, leaves in `Logits` the
    /// output head applied to the final norm of the residual stream, which is the embedding plus
    /// what the attention and the MLP or experts of every layer add to it; and every cache holds
    /// what it held with the step's rows stored in it.
    pub proof fn lemma_forward(self, layers: Seq<LayerDev>, runs: Seq<Run>, before: Buffers)
        requires
            self.fits(),
            layers.len() <= usize::MAX,
        ensures
            ({
                let now = after(self.forward_ops(layers, runs), before);
                &&& now[Buf::Logits] == self.logits(layers, runs, before)
                &&& self.after_layers(layers, runs, before, now, layers.len())
            }),
    {
        let n = layers.len();
        let head = self.head_ops();
        let middle = self.layers_ops(layers, runs, n);
        let tail = self.tail_ops();
        lemma_after_both(head + middle, tail, before);
        lemma_after_both(head, middle, before);
        let s1 = after(head, before);
        self.lemma_head(before);
        self.lemma_layers(layers, runs, before, s1, n);
        self.lemma_tail(after(middle, s1));
    }

    /// The stream has a row of the model's width for each row of the step.
    proof fn lemma_stream_shape(
        self,
        layers: Seq<LayerDev>,
        runs: Seq<Run>,
        before: Buffers,
        n: nat,
    )
        ensures
            has_shape(self.stream(layers, runs, before, n), self.rows as int, self.width()),
        decreases n,
    {
        if n > 0 {
            self.lemma_stream_shape(layers, runs, before, (n - 1) as nat);
        }
    }

    proof fn lemma_head(self, st: Buffers)
        requires
            self.fits(),
        ensures
            ({
                let now = after(self.head_ops(), st);
                &&& now[Buf::X] == embedded(self.rows as int, self.width())
                &&& caches_kept(st, now)
            }),
    {
        let dump = Op::DumpEmbedding { rows: self.rows, d: self.spec_d() };
        let start = Op::Record { point: ProfPoint::StepStart };
        let ops = self.head_ops();
        let o1 = seq![ops[0]];
        let o2 = opt(self.layer_dump, dump);
        let o3 = opt(self.profile, start);
        let o4 = opt(self.prefetch, Op::PrefetchBegin);
        assert(ops =~= o1 + o2 + o3 + o4);
        lemma_after_both(o1 + o2 + o3, o4, st);
        lemma_after_both(o1 + o2, o3, st);
        lemma_after_both(o1, o2, st);
        let s1 = after(o1, st);
        assert(s1 == effect(ops[0], st)) by {
            reveal_with_fuel(after_first, 2);
        }
        lemma_after_opt(self.layer_dump, dump, s1);
        lemma_after_opt(self.profile, start, s1);
        lemma_after_opt(self.prefetch, Op::PrefetchBegin, s1);
    }

    proof fn lemma_tail(self, st: Buffers)
        requires
            self.fits(),
            has_shape(st[Buf::X], self.rows as int, self.width()),
        ensures
            ({
                let now = after(self.tail_ops(), st);
                &&& now[Buf::Logits] == product(
                    normed(st[Buf::X], Param { layer: None, tensor: Tensor::RmsFinal }),
                    Param { layer: None, tensor: Tensor::LmHead },
                    self.cfg.vocab_size as int,
                )
                &&& now[Buf::X] == st[Buf::X]
                &&& caches_kept(st, now)
            }),
    {
        let end = Op::Record { point: ProfPoint::StepEnd };
        let ops = self.tail_ops();
        let o1 = seq![ops[0], ops[1]];
        let o2 = opt(self.profile, end);
        assert(ops =~= o1 + o2);
        lemma_after_both(o1, o2, st);
        let s1 = after(o1, st);
        assert(s1 == effect(ops[1], effect(ops[0], st))) by {
            reveal_with_fuel(after_first, 3);
        }
        lemma_after_opt(self.profile, end, s1);
    }
}

/// A step of a model computes the network for its rows: whatever the buffers held before, the
/// logits of the rows stand in `Logits` afterwards, one row for each row of the step and one number
/// for each token of the vocabulary, and the caches took the rows.
pub proof fn lemma_model_step(v: ModelView, n: int, decode_only: bool, before: Buffers)
    requires
        v.wf(),
        0 <= n <= v.rows,
        v.layers.len() <= usize::MAX,
    ensures
        ({
            let s = v.step(n, decode_only);
            let now = after(s.forward_ops(v.layers, Seq::empty()), before);
            &&& now[Buf::Logits] == s.logits(v.layers, Seq::empty(), before)
            &&& has_shape(now[Buf::Logits], n, v.cfg.vocab_size as int)
            &&& s.after_layers(v.layers, Seq::empty(), before, now, v.layers.len())
        }),
{
    let s = v.step(n, decode_only);
    lemma_fits_fewer(v.cfg, v.rows as int, n);
    if v.paged {
        let (b, p) = (v.batch as int, v.max_pages as int);
        assert(p <= b * p) by (nonlinear_arith)
            requires
                1 <= b,
                0 <= p,
        ;
    }
    s.lemma_forward(v.layers, Seq::empty(), before);
    s.lemma_stream_shape(v.layers, Seq::empty(), before, v.layers.len());
}

/// Operations that only copy to the host leave the buffers as they are.
proof fn lemma_quiet(ops: Seq<Op>, st: Buffers, n: nat)
    requires
        n <= ops.len(),
        forall|i: int|
            0 <= i < ops.len() ==> #[trigger] ops[i] is DumpLayer || ops[i] is DumpRouting
                || ops[i] is DumpMoe,
    ensures
        after_first(ops, st, n) == st,
    decreases n,
{
    if n > 0 {
        lemma_quiet(ops, st, (n - 1) as nat);
        assert(ops[n - 1] is DumpLayer || ops[n - 1] is DumpRouting || ops[n - 1] is DumpMoe);
    }
}

} // verus!
