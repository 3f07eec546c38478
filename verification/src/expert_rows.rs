//! What the expert operations compute row by row: the grouped kernels and the work expert by
//! expert leave the same weighted sum.

use vstd::prelude::*;

use crate::device::Buf;
use crate::device::ExpertSource;
use crate::device::Op;
use crate::device::Tensor;
use crate::forward::expert_base;
use crate::forward::Step;

verus! {

/// How the numbers of one row come about.
pub enum Row {
    Unknown,
    /// What a buffer held in that row before.
    Given(Buf, int),
    /// A row times the transposed weight of one expert.
    Product { layer: usize, tensor: Tensor, expert: int, x: Box<Row> },
    /// `silu(gate) * up`.
    Gated { gate: Box<Row>, up: Box<Row> },
}

/// One summand of a row's sum: what the expert of a slot made of the row. The slot's weight
/// multiplies it.
pub struct Share {
    pub slot: int,
    pub x: Row,
}

/// A buffer as rows of equal width.
pub struct Tile {
    pub width: int,
    pub row: spec_fn(int) -> Row,
}

/// The buffers, and the sums of the step's rows.
pub struct Desk {
    pub tiles: Map<Buf, Tile>,
    pub sums: spec_fn(int) -> Seq<Share>,
}

/// The routing of a step: slot `t * topk + k` is choice `k` of row `t`.
pub struct Routing {
    pub topk: int,
    /// The expert of a slot.
    pub ids: spec_fn(int) -> int,
    /// The slot of a row packed by expert.
    pub packed: spec_fn(int) -> int,
}

/// Where row `row` of a matrix of that width starts.
pub open spec fn starts(offset: int, row: int, width: int) -> bool {
    offset == row * width
}

/// The row that starts at an offset, if one does.
pub open spec fn row_at(offset: int, width: int) -> int {
    offset / width
}

pub open spec fn put(desk: Desk, buf: Buf, width: int, row: spec_fn(int) -> Row) -> Desk {
    Desk { tiles: desk.tiles.insert(buf, Tile { width, row }), ..desk }
}

/// The sums after the packed rows `base..base + n` were added, from the rows of `down` on.
pub open spec fn scattered(
    r: Routing,
    sums: spec_fn(int) -> Seq<Share>,
    down: Tile,
    base: int,
    first: int,
    n: nat,
) -> spec_fn(int) -> Seq<Share>
    decreases n,
{
    if n == 0 {
        sums
    } else {
        let before = scattered(r, sums, down, base, first, (n - 1) as nat);
        let slot = (r.packed)(base + n - 1);
        |t: int|
            if t == slot / r.topk {
                before(t).push(Share { slot, x: (down.row)(first + n - 1) })
            } else {
                before(t)
            }
    }
}

/// What an expert operation does to the rows.
pub open spec fn row_step(r: Routing, op: Op, desk: Desk) -> Desk {
    match op {
        Op::ExpertGemm {
            layer,
            source,
            tensor,
            w_offset,
            out,
            out_offset,
            x,
            x_offset,
            n,
            k,
            rows,
        } => {
            let from = row_at(x_offset as int, k as int);
            let to = row_at(out_offset as int, n as int);
            let expert = row_at(w_offset as int, n * k);
            let known = starts(x_offset as int, from, k as int) && starts(
                out_offset as int,
                to,
                n as int,
            ) && starts(w_offset as int, expert, n * k) && desk.tiles[x].width == k;
            let old_row = desk.tiles[out].row;
            put(
                desk,
                out,
                n as int,
                |i: int|
                    if !known {
                        Row::Unknown
                    } else if to <= i < to + rows {
                        Row::Product {
                            layer,
                            tensor,
                            expert,
                            x: Box::new((desk.tiles[x].row)(from + i - to)),
                        }
                    } else {
                        old_row(i)
                    },
            )
        },
        Op::SiluMul { up, gate, out, n } => {
            let width = desk.tiles[gate].width;
            let known = desk.tiles[up].width == width;
            put(
                desk,
                out,
                width,
                |i: int|
                    if known && 0 <= i && (i + 1) * width <= n {
                        Row::Gated {
                            gate: Box::new((desk.tiles[gate].row)(i)),
                            up: Box::new((desk.tiles[up].row)(i)),
                        }
                    } else {
                        Row::Unknown
                    },
            )
        },
        Op::MoeScatterAdd { base, down_offset, rows, d } => {
            let down = desk.tiles[Buf::DownAll];
            let first = row_at(down_offset as int, d as int);
            let known = down.width == d && starts(down_offset as int, first, d as int);
            Desk {
                sums: if known {
                    scattered(r, desk.sums, down, base as int, first, rows as nat)
                } else {
                    |t: int| seq![Share { slot: 0, x: Row::Unknown }]
                },
                ..desk
            }
        },
        Op::MoeGroupedGateUp { layer, source, rows, inter, d, topk } => {
            let x = desk.tiles[Buf::Xn2];
            let through = |tensor: Tensor, i: int|
                if x.width == d && topk == r.topk && 0 <= i < rows {
                    Row::Product {
                        layer,
                        tensor,
                        expert: (r.ids)(i),
                        x: Box::new((x.row)(i / (topk as int))),
                    }
                } else {
                    Row::Unknown
                };
            put(
                put(desk, Buf::GateAll, inter as int, |i: int| through(Tensor::MoeWg, i)),
                Buf::UpAll,
                inter as int,
                |i: int| through(Tensor::MoeWu, i),
            )
        },
        Op::MoeGroupedDown { layer, source, rows, d, inter } => {
            let x = desk.tiles[Buf::EhAll];
            put(
                desk,
                Buf::DownAll,
                d as int,
                |i: int|
                    if x.width == inter && 0 <= i < rows {
                        Row::Product {
                            layer,
                            tensor: Tensor::MoeWd,
                            expert: (r.ids)(i),
                            x: Box::new((x.row)(i)),
                        }
                    } else {
                        Row::Unknown
                    },
            )
        },
        Op::MoeScatterAll { rows, topk, d } => {
            let down = desk.tiles[Buf::DownAll];
            Desk {
                sums: |t: int|
                    if 0 <= t < rows && down.width == d && topk == r.topk {
                        Seq::new(
                            topk as nat,
                            |k: int|
                                Share { slot: t * topk + k, x: (down.row)(t * topk + k) },
                        )
                    } else {
                        (desk.sums)(t)
                    },
                ..desk
            }
        },
        _ => desk,
    }
}

pub open spec fn row_steps(r: Routing, ops: Seq<Op>, desk: Desk, n: nat) -> Desk
    decreases n,
{
    if n == 0 {
        desk
    } else {
        row_step(r, ops[n - 1], row_steps(r, ops, desk, (n - 1) as nat))
    }
}

/// What the operations do to the rows, one after the other.
pub open spec fn row_run(r: Routing, ops: Seq<Op>, desk: Desk) -> Desk {
    row_steps(r, ops, desk, ops.len())
}

/// What one expert makes of a row: its `MoeWd` projection of `silu(gate) * up`, where `gate` is
/// the product with `MoeWg` and `up` that with `MoeWu`.
pub open spec fn expert_mlp(layer: usize, expert: int, x: Row) -> Row {
    Row::Product {
        layer,
        tensor: Tensor::MoeWd,
        expert,
        x: Box::new(
            Row::Gated {
                gate: Box::new(
                    Row::Product { layer, tensor: Tensor::MoeWg, expert, x: Box::new(x) },
                ),
                up: Box::new(
                    Row::Product { layer, tensor: Tensor::MoeWu, expert, x: Box::new(x) },
                ),
            },
        ),
    }
}

/// The summands of row `t` among the first `n` packed rows, where `owner` gives the expert that a
/// packed row was packed for.
pub open spec fn packed_shares(
    r: Routing,
    layer: usize,
    owner: spec_fn(int) -> int,
    x: spec_fn(int) -> Row,
    t: int,
    n: nat,
) -> Seq<Share>
    decreases n,
{
    if n == 0 {
        Seq::empty()
    } else {
        let before = packed_shares(r, layer, owner, x, t, (n - 1) as nat);
        let slot = (r.packed)(n - 1);
        if slot / r.topk == t {
            before.push(Share { slot, x: expert_mlp(layer, owner(n - 1), x(n - 1)) })
        } else {
            before
        }
    }
}

/// The packed rows of expert `e` are owned by it.
pub open spec fn owns(owner: spec_fn(int) -> int, counts: Seq<i32>, n: nat) -> bool {
    forall|e: int, i: int|
        #![trigger owner(i), counts[e]]
        0 <= e < n && expert_base(counts, e as nat) <= i < expert_base(counts, e as nat)
            + counts[e] ==> owner(i) == e
}

impl Step {
    /// The grouped kernels leave for each row of the step the sum over its choices of what the
    /// chosen expert makes of the row, each weighted by its slot.
    pub proof fn lemma_grouped_rows(self, li: usize, r: Routing, desk: Desk, t: int)
        requires
            self.fits(),
            r.topk == self.spec_topk(),
            desk.tiles[Buf::Xn2].width == self.cfg.d_model,
            0 <= t < self.rows,
        ensures
            (row_run(r, self.grouped_ops(li), desk).sums)(t) =~= Seq::new(
                r.topk as nat,
                |k: int|
                    Share {
                        slot: t * r.topk + k,
                        x: expert_mlp(
                            li,
                            (r.ids)(t * r.topk + k),
                            (desk.tiles[Buf::Xn2].row)(t),
                        ),
                    },
            ),
    {
        self.lemma_fits();
        let ops = self.grouped_ops(li);
        let d1 = row_step(r, ops[0], desk);
        let d2 = row_step(r, ops[1], d1);
        let d3 = row_step(r, ops[2], d2);
        let d4 = row_step(r, ops[3], d3);
        assert(row_run(r, ops, desk) == d4) by {
            reveal_with_fuel(row_steps, 5);
        }
        let topk = self.spec_topk();
        let rows = self.rows as int;
        let w = self.cfg.spec_expert_size() as int;
        assert forall|k: int| 0 <= k < topk implies #[trigger] (d4.sums)(t)[k] == (Share {
            slot: t * topk + k,
            x: expert_mlp(li, (r.ids)(t * topk + k), (desk.tiles[Buf::Xn2].row)(t)),
        }) by {
            let i = t * topk + k;
            assert(i / topk == t) by {
                vstd::arithmetic::mul::lemma_mul_is_commutative(t, topk);
                vstd::arithmetic::div_mod::lemma_div_multiples_vanish_fancy(t, k, topk);
            }
            assert(0 <= i < rows * topk) by (nonlinear_arith)
                requires
                    0 <= t < rows,
                    0 <= k < topk,
                    i == t * topk + k,
            ;
            assert((i + 1) * w <= rows * topk * w) by (nonlinear_arith)
                requires
                    i + 1 <= rows * topk,
                    0 <= w,
            ;
        }
    }

    proof fn lemma_one_expert_rows(
        self,
        layer: usize,
        source: ExpertSource,
        e: nat,
        base: int,
        rows: i32,
        r: Routing,
        desk: Desk,
    )
        requires
            self.fits(),
            self.cfg.d_model > 0,
            self.cfg.spec_expert_size() > 0,
            e < self.cfg.num_experts,
            0 <= base,
            0 < rows,
            base + rows <= self.rows * self.spec_topk(),
            desk.tiles[Buf::Xg].width == self.cfg.d_model,
        ensures
            ({
                let ops = self.one_expert_ops(layer, source, e, base, rows);
                let now = row_run(r, ops, desk);
                let x = desk.tiles[Buf::Xg].row;
                &&& now.tiles[Buf::Xg] == desk.tiles[Buf::Xg]
                &&& exists|down: Tile|
                    now.sums == #[trigger] scattered(r, desk.sums, down, base, base, rows as nat)
                        && forall|i: int|
                        base <= i < base + rows ==> #[trigger] (down.row)(i) == expert_mlp(
                            layer,
                            e as int,
                            x(i),
                        )
            }),
    {
        self.lemma_fits();
        let d = self.cfg.d_model as int;
        let w = self.cfg.spec_expert_size() as int;
        let routed = self.rows * self.spec_topk();
        let ops = self.one_expert_ops(layer, source, e, base, rows);
        let x = desk.tiles[Buf::Xg].row;
        assert(0 <= base * d <= routed * d && 0 <= rows * w <= routed * w) by (nonlinear_arith)
            requires
                0 <= base <= routed,
                0 <= rows <= routed,
                0 <= d,
                0 <= w,
        ;
        assert(0 < w * d && w * d == d * w) by (nonlinear_arith)
            requires
                0 < w,
                0 < d,
        ;
        let wd = w * d;
        let experts = self.cfg.num_experts as int;
        assert(0 <= e * wd <= experts * wd) by (nonlinear_arith)
            requires
                0 <= e <= experts,
                0 < wd,
        ;
        vstd::arithmetic::div_mod::lemma_div_by_multiple(base, d);
        vstd::arithmetic::div_mod::lemma_div_by_multiple(e as int, wd);
        vstd::arithmetic::div_mod::lemma_div_by_multiple(0, w);
        assert(0 * w == 0);
        let d1 = row_step(r, ops[0], desk);
        let d2 = row_step(r, ops[1], d1);
        let d3 = row_step(r, ops[2], d2);
        let d4 = row_step(r, ops[3], d3);
        let d5 = row_step(r, ops[4], d4);
        assert(row_run(r, ops, desk) == d5) by {
            reveal_with_fuel(row_steps, 6);
        }
        let down = d4.tiles[Buf::DownAll];
        assert forall|i: int| base <= i < base + rows implies #[trigger] (down.row)(i)
            == expert_mlp(layer, e as int, x(i)) by {
            let j = i - base;
            assert((j + 1) * w <= rows * w) by (nonlinear_arith)
                requires
                    j + 1 <= rows,
                    0 <= w,
            ;
            assert((d1.tiles[Buf::GateAll].row)(j) == (Row::Product {
                layer,
                tensor: Tensor::MoeWg,
                expert: e as int,
                x: Box::new(x(i)),
            }));
            assert((d2.tiles[Buf::UpAll].row)(j) == (Row::Product {
                layer,
                tensor: Tensor::MoeWu,
                expert: e as int,
                x: Box::new(x(i)),
            }));
        }
        assert(d5.sums == scattered(r, desk.sums, down, base, base, rows as nat));
    }

    /// Scattering a segment of packed rows continues the summands of every row.
    proof fn lemma_scattered(
        self,
        r: Routing,
        layer: usize,
        owner: spec_fn(int) -> int,
        x: spec_fn(int) -> Row,
        sums: spec_fn(int) -> Seq<Share>,
        down: Tile,
        base: nat,
        n: nat,
        t: int,
    )
        requires
            sums(t) == packed_shares(r, layer, owner, x, t, base),
            forall|i: int|
                base <= i < base + n ==> #[trigger] (down.row)(i) == expert_mlp(
                    layer,
                    owner(i),
                    x(i),
                ),
        ensures
            scattered(r, sums, down, base as int, base as int, n)(t) == packed_shares(
                r,
                layer,
                owner,
                x,
                t,
                base + n,
            ),
        decreases n,
    {
        if n > 0 {
            self.lemma_scattered(r, layer, owner, x, sums, down, base, (n - 1) as nat, t);
            let i = base + n - 1;
            assert((down.row)(i) == expert_mlp(layer, owner(i), x(i)));
        }
    }

    proof fn lemma_experts_rows(
        self,
        layer: usize,
        source: ExpertSource,
        counts: Seq<i32>,
        n: nat,
        r: Routing,
        owner: spec_fn(int) -> int,
        desk: Desk,
    )
        requires
            self.fits(),
            self.cfg.d_model > 0,
            self.cfg.spec_expert_size() > 0,
            n <= counts.len() <= self.cfg.num_experts,
            forall|e: int| 0 <= e < counts.len() ==> #[trigger] counts[e] >= 0,
            expert_base(counts, n) <= self.rows * self.spec_topk(),
            desk.tiles[Buf::Xg].width == self.cfg.d_model,
            owns(owner, counts, n),
            forall|t: int| #[trigger] (desk.sums)(t) == Seq::<Share>::empty(),
        ensures
            ({
                let now = row_run(r, self.expert_ops(layer, source, counts, n), desk);
                let x = desk.tiles[Buf::Xg].row;
                &&& 0 <= expert_base(counts, n)
                &&& now.tiles[Buf::Xg] == desk.tiles[Buf::Xg]
                &&& forall|t: int| #[trigger]
                    (now.sums)(t) == packed_shares(
                        r,
                        layer,
                        owner,
                        x,
                        t,
                        expert_base(counts, n) as nat,
                    )
            }),
        decreases n,
    {
        if n > 0 {
            let e = (n - 1) as nat;
            assert(counts[e as int] >= 0);
            self.lemma_experts_rows(layer, source, counts, e, r, owner, desk);
            let x = desk.tiles[Buf::Xg].row;
            let base = expert_base(counts, e);
            let rows = counts[e as int];
            let fewer = self.expert_ops(layer, source, counts, e);
            let more = if rows > 0 {
                self.one_expert_ops(layer, source, e, base, rows)
            } else {
                Seq::empty()
            };
            let d1 = row_run(r, fewer, desk);
            lemma_row_both(r, fewer, more, desk);
            if rows > 0 {
                self.lemma_one_expert_rows(layer, source, e, base, rows, r, d1);
                let d2 = row_run(r, more, d1);
                let down = choose|down: Tile|
                    d2.sums == #[trigger] scattered(r, d1.sums, down, base, base, rows as nat)
                        && forall|i: int|
                        base <= i < base + rows ==> #[trigger] (down.row)(i) == expert_mlp(
                            layer,
                            e as int,
                            x(i),
                        );
                assert forall|t: int| #[trigger] (d2.sums)(t) == packed_shares(
                    r,
                    layer,
                    owner,
                    x,
                    t,
                    expert_base(counts, n) as nat,
                ) by {
                    assert forall|i: int| base <= i < base + rows implies #[trigger] (down.row)(i)
                        == expert_mlp(layer, owner(i), x(i)) by {
                        assert(owner(i) == counts[e as int] || owner(i) == e);
                    }
                    assert((d1.sums)(t) == packed_shares(
                        r,
                        layer,
                        owner,
                        x,
                        t,
                        base as nat,
                    ));
                    self.lemma_scattered(
                        r,
                        layer,
                        owner,
                        x,
                        d1.sums,
                        down,
                        base as nat,
                        rows as nat,
                        t,
                    );
                }
            }
        }
    }
}

/// The rows of a step stand packed by expert: each slot has its place among the packed rows, the
/// packed rows of each expert are those of the slots that chose it, and each holds its slot's row.
pub struct Packing {
    pub counts: Seq<i32>,
    /// The packed row of a slot.
    pub place: spec_fn(int) -> int,
}

pub open spec fn packs(r: Routing, p: Packing, rows: int, x: Tile, xg: Tile) -> bool {
    let slots = rows * r.topk;
    &&& 0 < r.topk
    &&& expert_base(p.counts, p.counts.len()) == slots
    &&& forall|e: int| 0 <= e < p.counts.len() ==> #[trigger] p.counts[e] >= 0
    &&& forall|s: int|
        #![trigger (p.place)(s)]
        0 <= s < slots ==> 0 <= (p.place)(s) < slots && (r.packed)((p.place)(s)) == s
    &&& forall|i: int|
        #![trigger (r.packed)(i)]
        0 <= i < slots ==> 0 <= (r.packed)(i) < slots && (p.place)((r.packed)(i)) == i
    &&& owns(|i: int| (r.ids)((r.packed)(i)), p.counts, p.counts.len())
    &&& forall|i: int|
        #![trigger (xg.row)(i)]
        0 <= i < slots ==> (xg.row)(i) == (x.row)((r.packed)(i) / r.topk)
    &&& x.width == xg.width
}

/// The summand of choice `k` of row `t`.
pub open spec fn choice_share(r: Routing, layer: usize, x: Tile, t: int, k: int) -> Share {
    let slot = t * r.topk + k;
    Share { slot, x: expert_mlp(layer, (r.ids)(slot), (x.row)(t)) }
}

/// The summand is that of one choice of row `t`.
pub open spec fn is_choice(r: Routing, layer: usize, x: Tile, t: int, share: Share) -> bool {
    exists|k: int| 0 <= k < r.topk && share == #[trigger] choice_share(r, layer, x, t, k)
}

proof fn lemma_packed_shares(
    r: Routing,
    p: Packing,
    rows: int,
    x: Tile,
    xg: Tile,
    layer: usize,
    t: int,
    n: nat,
)
    requires
        packs(r, p, rows, x, xg),
        n <= rows * r.topk,
    ensures
        ({
            let shares = packed_shares(
                r,
                layer,
                |i: int| (r.ids)((r.packed)(i)),
                xg.row,
                t,
                n,
            );
            &&& forall|j: int|
                #![trigger shares[j]]
                0 <= j < shares.len() ==> 0 <= shares[j].slot < rows * r.topk && (p.place)(
                    shares[j].slot,
                ) < n && shares[j].slot / r.topk == t && shares[j].x == expert_mlp(
                    layer,
                    (r.ids)(shares[j].slot),
                    (x.row)(t),
                )
            &&& forall|a: int, b: int|
                #![trigger shares[a], shares[b]]
                0 <= a < b < shares.len() ==> (p.place)(shares[a].slot) < (p.place)(shares[b].slot)
            &&& forall|i: int|
                #![trigger (r.packed)(i)]
                0 <= i < n && (r.packed)(i) / r.topk == t ==> shares.contains(
                    Share {
                        slot: (r.packed)(i),
                        x: expert_mlp(layer, (r.ids)((r.packed)(i)), (x.row)(t)),
                    },
                )
        }),
    decreases n,
{
    if n > 0 {
        let owner = |i: int| (r.ids)((r.packed)(i));
        lemma_packed_shares(r, p, rows, x, xg, layer, t, (n - 1) as nat);
        let before = packed_shares(r, layer, owner, xg.row, t, (n - 1) as nat);
        let shares = packed_shares(r, layer, owner, xg.row, t, n);
        let slot = (r.packed)(n - 1);
        assert((xg.row)(n - 1) == (x.row)(slot / r.topk));
        if slot / r.topk == t {
            let last = Share { slot, x: expert_mlp(layer, (r.ids)(slot), (x.row)(t)) };
            assert(shares == before.push(last));
            assert(shares[before.len() as int] == last);
        }
        assert forall|i: int|
            #![trigger (r.packed)(i)]
            0 <= i < n && (r.packed)(i) / r.topk == t implies shares.contains(
            Share {
                slot: (r.packed)(i),
                x: expert_mlp(layer, (r.ids)((r.packed)(i)), (x.row)(t)),
            },
        ) by {
            let it = Share {
                slot: (r.packed)(i),
                x: expert_mlp(layer, (r.ids)((r.packed)(i)), (x.row)(t)),
            };
            if i < n - 1 {
                assert(before.contains(it));
                let j = choose|j: int| 0 <= j < before.len() && before[j] == it;
                assert(shares[j] == it);
            }
        }
    }
}

impl Step {
    /// The work expert by expert leaves for each row of the step the same summands as the grouped
    /// kernels, each once: for each of its choices what the chosen expert makes of the row. Only
    /// their order may differ.
    pub proof fn lemma_packed_rows(
        self,
        li: usize,
        source: ExpertSource,
        r: Routing,
        p: Packing,
        desk: Desk,
        t: int,
    )
        requires
            self.fits(),
            self.cfg.d_model > 0,
            self.cfg.spec_expert_size() > 0,
            p.counts.len() <= self.cfg.num_experts,
            r.topk == self.spec_topk(),
            packs(r, p, self.rows as int, desk.tiles[Buf::Xn2], desk.tiles[Buf::Xg]),
            desk.tiles[Buf::Xn2].width == self.cfg.d_model,
            forall|u: int| #[trigger] (desk.sums)(u) == Seq::<Share>::empty(),
            0 <= t < self.rows,
        ensures
            ({
                let ops = self.expert_ops(li, source, p.counts, p.counts.len());
                let shares = (row_run(r, ops, desk).sums)(t);
                let x = desk.tiles[Buf::Xn2];
                &&& shares.no_duplicates()
                &&& forall|k: int|
                    0 <= k < r.topk ==> shares.contains(#[trigger] choice_share(r, li, x, t, k))
                &&& forall|j: int|
                    0 <= j < shares.len() ==> is_choice(r, li, x, t, #[trigger] shares[j])
            }),
    {
        let x = desk.tiles[Buf::Xn2];
        let xg = desk.tiles[Buf::Xg];
        let rows = self.rows as int;
        let topk = r.topk;
        let owner = |i: int| (r.ids)((r.packed)(i));
        let n = p.counts.len();
        self.lemma_experts_rows(li, source, p.counts, n, r, owner, desk);
        let total = expert_base(p.counts, n) as nat;
        lemma_packed_shares(r, p, rows, x, xg, li, t, total);
        let ops = self.expert_ops(li, source, p.counts, n);
        let shares = (row_run(r, ops, desk).sums)(t);
        assert(shares == packed_shares(r, li, owner, xg.row, t, total));
        assert(shares.no_duplicates()) by {
            assert forall|a: int, b: int|
                0 <= a < shares.len() && 0 <= b < shares.len() && a != b implies shares[a]
                != shares[b] by {
                if a < b {
                    assert((p.place)(shares[a].slot) < (p.place)(shares[b].slot));
                } else {
                    assert((p.place)(shares[b].slot) < (p.place)(shares[a].slot));
                }
            }
        }
        assert forall|k: int| 0 <= k < topk implies shares.contains(
            #[trigger] choice_share(r, li, x, t, k),
        ) by {
            let s = t * topk + k;
            assert(0 <= s < rows * topk) by (nonlinear_arith)
                requires
                    0 <= t < rows,
                    0 <= k < topk,
                    s == t * topk + k,
            ;
            vstd::arithmetic::mul::lemma_mul_is_commutative(t, topk);
            vstd::arithmetic::div_mod::lemma_div_multiples_vanish_fancy(t, k, topk);
            let i = (p.place)(s);
            assert((r.packed)(i) == s);
        }
        assert forall|j: int| 0 <= j < shares.len() implies is_choice(
            r,
            li,
            x,
            t,
            #[trigger] shares[j],
        ) by {
            let s = shares[j].slot;
            vstd::arithmetic::div_mod::lemma_fundamental_div_mod(s, topk);
            vstd::arithmetic::mul::lemma_mul_is_commutative(t, topk);
            let k = s % topk;
            assert(shares[j] == choice_share(r, li, x, t, k));
        }
    }
}

proof fn lemma_row_prefix(r: Routing, a: Seq<Op>, b: Seq<Op>, desk: Desk, n: nat)
    requires
        n <= a.len(),
        n <= b.len(),
        forall|i: int| 0 <= i < n ==> a[i] == b[i],
    ensures
        row_steps(r, a, desk, n) == row_steps(r, b, desk, n),
    decreases n,
{
    if n > 0 {
        lemma_row_prefix(r, a, b, desk, (n - 1) as nat);
        assert(a[n - 1] == b[n - 1]);
    }
}

proof fn lemma_row_rest(r: Routing, a: Seq<Op>, b: Seq<Op>, desk: Desk, n: nat)
    requires
        n <= b.len(),
    ensures
        row_steps(r, a + b, desk, a.len() + n) == row_steps(r, b, row_run(r, a, desk), n),
    decreases n,
{
    if n == 0 {
        lemma_row_prefix(r, a, a + b, desk, a.len());
    } else {
        lemma_row_rest(r, a, b, desk, (n - 1) as nat);
        assert((a + b)[a.len() + n - 1] == b[n - 1]);
    }
}

proof fn lemma_row_both(r: Routing, a: Seq<Op>, b: Seq<Op>, desk: Desk)
    ensures
        row_run(r, a + b, desk) == row_run(r, b, row_run(r, a, desk)),
{
    lemma_row_rest(r, a, b, desk, b.len());
}

} // verus!
