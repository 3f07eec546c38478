//! Mathematical model of block placement: what a pool of parent blocks looks like, which
//! slots an acquisition takes, and how the pool changes.

use vstd::prelude::*;

use crate::kv_block_pool::CacheBlockLocation;

verus! {

/// One parent block: the group it is bound to and its child slots. A free parent has no
/// group and no slots.
pub struct ParentView {
    pub group: Option<u32>,
    pub slots: Seq<bool>,
}

/// A pool: its parents in id order (ids start at 1) and the queue of free parent ids.
pub struct PoolView {
    pub parents: Seq<ParentView>,
    pub free: Seq<int>,
}

/// Number of `true` entries.
pub open spec fn count_true(s: Seq<bool>) -> nat
    decreases s.len(),
{
    if s.len() == 0 {
        0
    } else {
        count_true(s.drop_last()) + if s.last() {
            1nat
        } else {
            0nat
        }
    }
}

/// Total occupied slots of a sequence of parents.
pub open spec fn total_occupied(parents: Seq<ParentView>) -> nat
    decreases parents.len(),
{
    if parents.len() == 0 {
        0
    } else {
        total_occupied(parents.drop_last()) + count_true(parents.last().slots)
    }
}

pub open spec fn location(id: int, slot: int) -> CacheBlockLocation {
    CacheBlockLocation { lcm_block_id: id as i32, slot_index: slot as i32 }
}

/// The unoccupied locations among the first `k` slots of parent `id`, in slot order.
pub open spec fn open_slots(id: int, slots: Seq<bool>, k: nat) -> Seq<CacheBlockLocation>
    decreases k,
{
    if k == 0 {
        Seq::empty()
    } else {
        let rest = open_slots(id, slots, (k - 1) as nat);
        if slots[k - 1] {
            rest
        } else {
            rest.push(location(id, k - 1))
        }
    }
}

/// The occupied locations among the first `k` slots of parent `id`, in slot order.
pub open spec fn taken_slots(id: int, slots: Seq<bool>, k: nat) -> Seq<CacheBlockLocation>
    decreases k,
{
    if k == 0 {
        Seq::empty()
    } else {
        let rest = taken_slots(id, slots, (k - 1) as nat);
        if slots[k - 1] {
            rest.push(location(id, k - 1))
        } else {
            rest
        }
    }
}

impl PoolView {
    pub open spec fn has_id(self, id: int) -> bool {
        1 <= id <= self.parents.len()
    }

    pub open spec fn parent(self, id: int) -> ParentView {
        self.parents[id - 1]
    }

    /// Occupied slots of parent `id`.
    pub open spec fn count(self, id: int) -> nat {
        count_true(self.parent(id).slots)
    }

    /// A slot of some parent holds a block.
    pub open spec fn occupied(self, loc: CacheBlockLocation) -> bool {
        &&& self.has_id(loc.lcm_block_id as int)
        &&& 0 <= loc.slot_index < self.parent(loc.lcm_block_id as int).slots.len()
        &&& self.parent(loc.lcm_block_id as int).slots[loc.slot_index as int]
    }

    /// A parent is either free (no group, no slots) or bound with at least one occupied slot.
    pub open spec fn parent_wf(self, id: int) -> bool {
        let p = self.parent(id);
        &&& p.group is None ==> p.slots.len() == 0
        &&& p.group is Some ==> 0 < self.count(id) && p.slots.len() <= i32::MAX
    }

    /// The pool invariant: every parent is well formed, and the free queue lists exactly the
    /// free parents, each once.
    pub open spec fn wf(self) -> bool {
        &&& self.parents.len() <= i32::MAX
        &&& forall|id: int| #[trigger] self.has_id(id) ==> self.parent_wf(id)
        &&& self.free.no_duplicates()
        &&& forall|id: int|
            #[trigger] self.free.contains(id) <==> self.has_id(id) && self.parent(id).group is None
    }

    /// Every parent bound to `group` is packed with `per` slots.
    pub open spec fn packing(self, group: u32, per: int) -> bool {
        forall|id: int|
            #[trigger] self.has_id(id) && self.parent(id).group == Some(group) ==> self.parent(
                id,
            ).slots.len() == per
    }

    /// Parent `id` is bound to `group` and has an open slot.
    pub open spec fn partial(self, group: u32, id: int) -> bool {
        self.parent(id).group == Some(group) && self.count(id) < self.parent(id).slots.len()
    }

    /// Places `id` behind every listed parent that is at least as occupied.
    pub open spec fn insert_by_count(self, ids: Seq<int>, id: int) -> Seq<int>
        decreases ids.len(),
    {
        if ids.len() == 0 || self.count(ids.last()) >= self.count(id) {
            ids.push(id)
        } else {
            self.insert_by_count(ids.drop_last(), id).push(ids.last())
        }
    }

    /// The partially filled parents of `group` among the first `n`, in the order in which
    /// they are filled: most occupied first, then lowest id.
    pub open spec fn fill_order(self, group: u32, n: nat) -> Seq<int>
        decreases n,
    {
        if n == 0 {
            Seq::empty()
        } else {
            let rest = self.fill_order(group, (n - 1) as nat);
            if self.partial(group, n as int) {
                self.insert_by_count(rest, n as int)
            } else {
                rest
            }
        }
    }

    /// `a` is filled before `b`: it is more occupied, or as occupied with a lower id.
    pub open spec fn fills_before(self, a: int, b: int) -> bool {
        self.count(a) > self.count(b) || (self.count(a) == self.count(b) && a < b)
    }

    pub open spec fn in_fill_order(self, ids: Seq<int>) -> bool {
        forall|i: int, j: int|
            0 <= i < j < ids.len() ==> self.fills_before(#[trigger] ids[i], #[trigger] ids[j])
    }

    /// Slots of a parent as an acquisition of packing `per` sees them: a free parent offers
    /// `per` open slots.
    pub open spec fn slots_for(self, id: int, per: int) -> Seq<bool> {
        if self.parent(id).group is None {
            Seq::new(per as nat, |i: int| false)
        } else {
            self.parent(id).slots
        }
    }

    /// Open locations of the listed parents, parent by parent.
    pub open spec fn gather(self, ids: Seq<int>, per: int) -> Seq<CacheBlockLocation>
        decreases ids.len(),
    {
        if ids.len() == 0 {
            Seq::empty()
        } else {
            self.gather(ids.drop_last(), per) + open_slots(
                ids.last(),
                self.slots_for(ids.last(), per),
                per as nat,
            )
        }
    }

    /// The parents an acquisition for `group` draws on, in order: its own partially filled
    /// parents, then the free queue.
    pub open spec fn sources(self, group: u32) -> Seq<int> {
        self.fill_order(group, self.parents.len()) + self.free
    }

    /// Every location an acquisition for `group` may take, in the order it takes them.
    pub open spec fn available(self, group: u32, per: int) -> Seq<CacheBlockLocation> {
        self.gather(self.sources(group), per)
    }

    /// The locations an acquisition of `count` blocks takes, or `None` if there are too few.
    pub open spec fn plan(self, group: u32, per: int, count: nat) -> Option<
        Seq<CacheBlockLocation>,
    > {
        let all = self.available(group, per);
        if all.len() >= count {
            Some(all.take(count as int))
        } else {
            None
        }
    }

    /// `loc` is the next slot that `group` may occupy: an open slot of a parent it owns, or a
    /// slot of the parent at the front of the free queue.
    pub open spec fn can_occupy(self, group: u32, per: int, loc: CacheBlockLocation) -> bool {
        let id = loc.lcm_block_id as int;
        &&& self.has_id(id)
        &&& 0 <= loc.slot_index < per
        &&& {
            ||| self.parent(id).group is None && self.free.len() > 0 && self.free[0] == id
            ||| self.parent(id).group == Some(group) && self.parent(id).slots.len() == per
                && !self.parent(id).slots[loc.slot_index as int]
        }
    }

    /// The pool after `group` occupied `loc`.
    pub open spec fn occupy(self, group: u32, per: int, loc: CacheBlockLocation) -> PoolView {
        let id = loc.lcm_block_id as int;
        let bound = ParentView {
            group: Some(group),
            slots: self.slots_for(id, per).update(loc.slot_index as int, true),
        };
        PoolView {
            parents: self.parents.update(id - 1, bound),
            free: if self.parent(id).group is None {
                self.free.skip(1)
            } else {
                self.free
            },
        }
    }

    /// The pool after `group` occupied `locs` one after the other.
    pub open spec fn occupy_all(
        self,
        group: u32,
        per: int,
        locs: Seq<CacheBlockLocation>,
    ) -> PoolView
        decreases locs.len(),
    {
        if locs.len() == 0 {
            self
        } else {
            self.occupy_all(group, per, locs.drop_last()).occupy(group, per, locs.last())
        }
    }

    /// Each of `locs` can be occupied once those before it are.
    pub open spec fn occupiable(
        self,
        group: u32,
        per: int,
        locs: Seq<CacheBlockLocation>,
    ) -> bool
        decreases locs.len(),
    {
        locs.len() == 0 || {
            &&& self.occupiable(group, per, locs.drop_last())
            &&& self.occupy_all(group, per, locs.drop_last()).can_occupy(group, per, locs.last())
        }
    }

    /// The pool after the block at `loc` was returned. A parent that loses its last block
    /// becomes free and joins the back of the queue.
    pub open spec fn release(self, loc: CacheBlockLocation) -> PoolView {
        let id = loc.lcm_block_id as int;
        let slots = self.parent(id).slots.update(loc.slot_index as int, false);
        if count_true(slots) == 0 {
            PoolView {
                parents: self.parents.update(
                    id - 1,
                    ParentView { group: None, slots: Seq::empty() },
                ),
                free: self.free.push(id),
            }
        } else {
            PoolView {
                parents: self.parents.update(
                    id - 1,
                    ParentView { group: self.parent(id).group, slots },
                ),
                free: self.free,
            }
        }
    }
}

pub proof fn lemma_count_update(s: Seq<bool>, i: int, b: bool)
    requires
        0 <= i < s.len(),
    ensures
        count_true(s.update(i, b)) == count_true(s) - (if s[i] {
            1int
        } else {
            0
        }) + (if b {
            1int
        } else {
            0
        }),
    decreases s.len(),
{
    let u = s.update(i, b);
    if i == s.len() - 1 {
        assert(u.drop_last() =~= s.drop_last());
    } else {
        assert(u.drop_last() =~= s.drop_last().update(i, b));
        lemma_count_update(s.drop_last(), i, b);
    }
}

pub proof fn lemma_count_bounds(s: Seq<bool>)
    ensures
        count_true(s) <= s.len(),
        count_true(s) == 0 <==> (forall|i: int| 0 <= i < s.len() ==> !#[trigger] s[i]),
        count_true(s) == s.len() <==> (forall|i: int| 0 <= i < s.len() ==> #[trigger] s[i]),
    decreases s.len(),
{
    if s.len() > 0 {
        lemma_count_bounds(s.drop_last());
        assert forall|i: int| 0 <= i < s.len() - 1 implies s.drop_last()[i] == s[i] by {}
        if count_true(s) == 0 {
            assert forall|i: int| 0 <= i < s.len() implies !#[trigger] s[i] by {
                if i < s.len() - 1 {
                    assert(!s.drop_last()[i]);
                }
            }
        }
        if count_true(s) == s.len() {
            assert forall|i: int| 0 <= i < s.len() implies #[trigger] s[i] by {
                if i < s.len() - 1 {
                    assert(s.drop_last()[i]);
                }
            }
        }
        if forall|i: int| 0 <= i < s.len() ==> !#[trigger] s[i] {
            assert(!s[s.len() - 1]);
            assert forall|i: int| 0 <= i < s.drop_last().len() implies !#[trigger] s.drop_last()[i] by {
                assert(!s[i]);
            }
        }
        if forall|i: int| 0 <= i < s.len() ==> #[trigger] s[i] {
            assert(s[s.len() - 1]);
            assert forall|i: int| 0 <= i < s.drop_last().len() implies #[trigger] s.drop_last()[i] by {
                assert(s[i]);
            }
        }
    }
}

pub proof fn lemma_occupy_wf(v: PoolView, group: u32, per: int, loc: CacheBlockLocation)
    requires
        v.wf(),
        v.packing(group, per),
        0 < per <= i32::MAX,
        v.can_occupy(group, per, loc),
    ensures
        v.occupy(group, per, loc).wf(),
        forall|g: u32, p: int| #[trigger]
            v.packing(g, p) ==> (g != group || p == per) ==> v.occupy(group, per, loc).packing(
                g,
                p,
            ),
{
    let id = loc.lcm_block_id as int;
    let w = v.occupy(group, per, loc);
    let s = v.slots_for(id, per);
    lemma_count_update(s, loc.slot_index as int, true);
    lemma_count_bounds(s);
    assert forall|i: int| #[trigger] w.has_id(i) implies w.parent_wf(i) by {
        assert(v.has_id(i));
        assert(v.parent_wf(i));
    }
    assert forall|g: u32, p: int| #[trigger] v.packing(g, p) && (g != group || p == per) implies
        w.packing(g, p) by {
        assert forall|i: int|
            #[trigger] w.has_id(i) && w.parent(i).group == Some(g) implies w.parent(
            i,
        ).slots.len() == p by {
            assert(v.has_id(i));
        }
    }
    assert(w.packing(group, per));
    if v.parent(id).group is None {
        assert(v.free =~= seq![id] + w.free);
        assert forall|i: int| #[trigger]
            w.free.contains(i) <==> w.has_id(i) && w.parent(i).group is None by {
            assert(v.free.contains(i) <==> v.has_id(i) && v.parent(i).group is None);
            if w.free.contains(i) {
                let k = choose|k: int| 0 <= k < w.free.len() && w.free[k] == i;
                assert(v.free[k + 1] == i);
                assert(v.free[0] == id);
                assert(i != id);
            }
            if w.has_id(i) && w.parent(i).group is None {
                assert(i != id);
                assert(v.has_id(i));
                let k = choose|k: int| 0 <= k < v.free.len() && v.free[k] == i;
                assert(w.free[k - 1] == i);
            }
        }
    } else {
        assert forall|i: int| #[trigger]
            w.free.contains(i) <==> w.has_id(i) && w.parent(i).group is None by {
            assert(v.free.contains(i) <==> v.has_id(i) && v.parent(i).group is None);
        }
    }
}

pub proof fn lemma_release_wf(v: PoolView, loc: CacheBlockLocation)
    requires
        v.wf(),
        v.occupied(loc),
    ensures
        v.release(loc).wf(),
        v.free.len() < v.parents.len(),
        forall|group: u32, per: int|
            #[trigger] v.packing(group, per) ==> v.release(loc).packing(group, per),
{
    let id = loc.lcm_block_id as int;
    let w = v.release(loc);
    assert(v.parent_wf(id));
    let s = v.parent(id).slots;
    lemma_count_update(s, loc.slot_index as int, false);
    lemma_free_len(v, id);
    assert forall|i: int| #[trigger] w.has_id(i) implies w.parent_wf(i) by {
        assert(v.has_id(i));
        assert(v.parent_wf(i));
    }
    assert(!v.free.contains(id));
    assert forall|i: int| #[trigger]
        w.free.contains(i) <==> w.has_id(i) && w.parent(i).group is None by {
        assert(v.free.contains(i) <==> v.has_id(i) && v.parent(i).group is None);
        if w.free != v.free {
            assert(w.free[w.free.len() - 1] == id);
            if v.free.contains(i) {
                let k = choose|k: int| 0 <= k < v.free.len() && v.free[k] == i;
                assert(w.free[k] == i);
            }
            if w.free.contains(i) && i != id {
                let k = choose|k: int| 0 <= k < w.free.len() && w.free[k] == i;
                assert(v.free[k] == i);
            }
        }
    }
    assert forall|group: u32, per: int| #[trigger] v.packing(group, per) implies w.packing(
        group,
        per,
    ) by {
        assert forall|i: int|
            #[trigger] w.has_id(i) && w.parent(i).group == Some(group) implies w.parent(
            i,
        ).slots.len() == per by {
            assert(v.has_id(i));
        }
    }
}

/// A pool with a bound parent has fewer free parents than parents.
proof fn lemma_free_len(v: PoolView, id: int)
    requires
        v.wf(),
        v.has_id(id),
        v.parent(id).group is Some,
    ensures
        v.free.len() < v.parents.len(),
{
    let ids = vstd::set_lib::set_int_range(1, (v.parents.len() + 1) as int);
    vstd::set_lib::lemma_int_range(1, (v.parents.len() + 1) as int);
    let rest = ids.remove(id);
    v.free.unique_seq_to_set();
    assert(v.free.to_set().subset_of(rest)) by {
        assert forall|i: int| #[trigger] v.free.to_set().contains(i) implies rest.contains(i) by {
            assert(v.free.contains(i));
        }
    }
    vstd::set_lib::lemma_len_subset(v.free.to_set(), rest);
}

pub proof fn lemma_total_prefix(parents: Seq<ParentView>, k: int)
    requires
        0 <= k <= parents.len(),
    ensures
        total_occupied(parents.take(k)) <= total_occupied(parents),
    decreases parents.len(),
{
    if k == parents.len() {
        assert(parents.take(k) =~= parents);
    } else {
        assert(parents.drop_last().take(k) =~= parents.take(k));
        lemma_total_prefix(parents.drop_last(), k);
    }
}

/// There are no more free parents than parents.
pub proof fn lemma_free_at_most(v: PoolView)
    requires
        v.wf(),
    ensures
        v.free.len() <= v.parents.len(),
{
    let n = (v.parents.len() + 1) as int;
    let ids = vstd::set_lib::set_int_range(1, n);
    vstd::set_lib::lemma_int_range(1, n);
    v.free.unique_seq_to_set();
    assert(v.free.to_set().subset_of(ids)) by {
        assert forall|i: int| #[trigger] v.free.to_set().contains(i) implies ids.contains(i) by {
            assert(v.free.contains(i));
        }
    }
    vstd::set_lib::lemma_len_subset(v.free.to_set(), ids);
}

pub proof fn lemma_gather_concat(v: PoolView, a: Seq<int>, b: Seq<int>, per: int)
    ensures
        v.gather(a + b, per) == v.gather(a, per) + v.gather(b, per),
    decreases b.len(),
{
    if b.len() == 0 {
        assert(a + b =~= a);
        assert(v.gather(a, per) + v.gather(b, per) =~= v.gather(a, per));
    } else {
        assert((a + b).drop_last() =~= a + b.drop_last());
        lemma_gather_concat(v, a, b.drop_last(), per);
        let last = open_slots(b.last(), v.slots_for(b.last(), per), per as nat);
        assert((v.gather(a, per) + v.gather(b.drop_last(), per)) + last =~= v.gather(a, per) + (
        v.gather(b.drop_last(), per) + last));
    }
}

/// Gathering looks only at the listed parents.
proof fn lemma_gather_frame(v: PoolView, w: PoolView, ids: Seq<int>, per: int)
    requires
        forall|i: int| 0 <= i < ids.len() ==> v.parent(#[trigger] ids[i]) == w.parent(ids[i]),
    ensures
        v.gather(ids, per) == w.gather(ids, per),
    decreases ids.len(),
{
    if ids.len() > 0 {
        assert forall|i: int| 0 <= i < ids.drop_last().len() implies v.parent(
            #[trigger] ids.drop_last()[i],
        ) == w.parent(ids.drop_last()[i]) by {
            assert(ids.drop_last()[i] == ids[i]);
        }
        lemma_gather_frame(v, w, ids.drop_last(), per);
        assert(v.parent(ids[ids.len() - 1]) == w.parent(ids[ids.len() - 1]));
    }
}

pub proof fn lemma_occupy_all_concat(
    v: PoolView,
    group: u32,
    per: int,
    a: Seq<CacheBlockLocation>,
    b: Seq<CacheBlockLocation>,
)
    ensures
        v.occupy_all(group, per, a + b) == v.occupy_all(group, per, a).occupy_all(group, per, b),
        v.occupiable(group, per, a + b) <==> v.occupiable(group, per, a) && v.occupy_all(
            group,
            per,
            a,
        ).occupiable(group, per, b),
    decreases b.len(),
{
    if b.len() == 0 {
        assert(a + b =~= a);
    } else {
        assert((a + b).drop_last() =~= a + b.drop_last());
        lemma_occupy_all_concat(v, group, per, a, b.drop_last());
    }
}

/// Legal steps keep the pool invariant and the packing.
pub proof fn lemma_occupy_all_wf(
    v: PoolView,
    group: u32,
    per: int,
    locs: Seq<CacheBlockLocation>,
)
    requires
        v.wf(),
        v.packing(group, per),
        0 < per <= i32::MAX,
        v.occupiable(group, per, locs),
    ensures
        v.occupy_all(group, per, locs).wf(),
        v.occupy_all(group, per, locs).packing(group, per),
        forall|g: u32, p: int| #[trigger]
            v.packing(g, p) ==> g != group ==> v.occupy_all(group, per, locs).packing(g, p),
        v.occupy_all(group, per, locs).parents.len() == v.parents.len(),
    decreases locs.len(),
{
    if locs.len() > 0 {
        lemma_occupy_all_wf(v, group, per, locs.drop_last());
        lemma_occupy_wf(
            v.occupy_all(group, per, locs.drop_last()),
            group,
            per,
            locs.last(),
        );
    }
}

/// `slots` with the first `k` entries set.
pub open spec fn filled(slots: Seq<bool>, k: nat) -> Seq<bool> {
    Seq::new(slots.len(), |i: int| i < k || slots[i])
}

/// Occupying the open slots of one parent in order is legal and touches nothing else.
proof fn lemma_fill_parent(v: PoolView, group: u32, per: int, id: int, k: nat)
    requires
        v.wf(),
        v.packing(group, per),
        v.has_id(id),
        0 < per <= i32::MAX,
        k <= per,
        v.parent(id).group == Some(group) || (v.parent(id).group is None && v.free.len() > 0
            && v.free[0] == id),
    ensures
        ({
            let s = v.slots_for(id, per);
            let locs = open_slots(id, s, k);
            let w = v.occupy_all(group, per, locs);
            &&& v.occupiable(group, per, locs)
            &&& locs.len() == 0 ==> w == v && filled(s, k) =~= s
            &&& locs.len() > 0 ==> w.parents =~= v.parents.update(
                id - 1,
                ParentView { group: Some(group), slots: filled(s, k) },
            ) && w.free == if v.parent(id).group is None {
                v.free.skip(1)
            } else {
                v.free
            }
        }),
    decreases k,
{
    let s = v.slots_for(id, per);
    assert(s.len() == per);
    if k == 0 {
        assert(filled(s, 0) =~= s);
    } else {
        lemma_fill_parent(v, group, per, id, (k - 1) as nat);
        let before = open_slots(id, s, (k - 1) as nat);
        let locs = open_slots(id, s, k);
        let u = v.occupy_all(group, per, before);
        if s[k - 1] {
            assert(filled(s, k) =~= filled(s, (k - 1) as nat));
        } else {
            let loc = location(id, k - 1);
            assert(locs.drop_last() =~= before);
            assert(locs.last() == loc);
            if before.len() == 0 {
                assert(u == v);
                assert(filled(s, k) =~= s.update(k - 1, true));
            } else {
                assert(u.parent(id).slots == filled(s, (k - 1) as nat));
                assert(u.parent(id).slots.update(k - 1, true) =~= filled(s, k));
                assert(!u.parent(id).slots[k - 1]);
            }
            assert(u.can_occupy(group, per, loc));
            assert(v.occupy_all(group, per, locs) == u.occupy(group, per, loc));
        }
    }
}

/// A parent that is not full has an open slot.
pub proof fn lemma_open_slots_len(id: int, slots: Seq<bool>, k: nat)
    requires
        k <= slots.len(),
    ensures
        open_slots(id, slots, k).len() == k - count_true(slots.take(k as int)),
        taken_slots(id, slots, k).len() == count_true(slots.take(k as int)),
    decreases k,
{
    if k > 0 {
        lemma_open_slots_len(id, slots, (k - 1) as nat);
        assert(slots.take(k as int).drop_last() =~= slots.take(k - 1));
    }
}

/// Taking every available slot in order is legal.
pub proof fn lemma_sources_occupiable(v: PoolView, group: u32, per: int, a: Seq<int>)
    requires
        v.wf(),
        v.packing(group, per),
        0 < per <= i32::MAX,
        a.no_duplicates(),
        forall|i: int|
            0 <= i < a.len() ==> v.has_id(#[trigger] a[i]) && v.partial(group, a[i]),
    ensures
        v.occupiable(group, per, v.gather(a + v.free, per)),
    decreases a.len() + v.free.len(),
{
    let ids = a + v.free;
    if ids.len() == 0 {
        assert(v.gather(ids, per) =~= Seq::empty());
    } else {
        let x = ids[0];
        let rest = ids.skip(1);
        let s = v.slots_for(x, per);
        let first = open_slots(x, s, per as nat);
        if a.len() > 0 {
            assert(x == a[0]);
        } else {
            assert(x == v.free[0]);
            assert(v.free.contains(x));
        }
        lemma_fill_parent(v, group, per, x, per as nat);
        lemma_open_slots_len(x, s, per as nat);
        assert(s.take(per) =~= s);
        lemma_count_bounds(s);
        assert(first.len() > 0) by {
            if a.len() == 0 {
                assert(!s[0]);
            }
        }
        let w = v.occupy_all(group, per, first);
        lemma_occupy_all_wf(v, group, per, first);
        // The remaining parents are untouched.
        assert forall|i: int| 0 <= i < rest.len() implies v.parent(#[trigger] rest[i])
            == w.parent(rest[i]) by {
            assert(rest[i] == ids[i + 1]);
            assert(v.free.contains(x) ==> v.parent(x).group is None);
            if i + 1 < a.len() {
                assert(a[i + 1] != a[0]);
                assert(v.has_id(a[i + 1]));
            } else {
                let j = i + 1 - a.len();
                assert(rest[i] == v.free[j]);
                assert(v.free.contains(v.free[j]));
                if a.len() > 0 {
                    assert(v.parent(x).group is Some);
                } else {
                    assert(v.free[j] != v.free[0]);
                }
            }
        }
        lemma_gather_frame(v, w, rest, per);
        let b = if a.len() > 0 {
            a.skip(1)
        } else {
            a
        };
        assert(rest =~= b + w.free);
        assert forall|i: int| 0 <= i < b.len() implies w.has_id(#[trigger] b[i]) && w.partial(
            group,
            b[i],
        ) by {
            assert(b[i] == a[i + 1]);
            assert(v.has_id(a[i + 1]) && v.partial(group, a[i + 1]));
            assert(a[i + 1] != a[0]);
        }
        lemma_sources_occupiable(w, group, per, b);
        assert(ids =~= seq![x] + rest);
        lemma_gather_concat(v, seq![x], rest, per);
        assert(seq![x].drop_last() =~= Seq::<int>::empty());
        assert(v.gather(seq![x], per) =~= first) by {
            assert(v.gather(Seq::<int>::empty(), per) =~= Seq::empty());
            assert(seq![x].last() == x);
        }
        lemma_occupy_all_concat(v, group, per, first, v.gather(rest, per));
    }
}

proof fn lemma_insert_by_count(v: PoolView, ids: Seq<int>, id: int)
    requires
        v.in_fill_order(ids),
        forall|i: int| 0 <= i < ids.len() ==> #[trigger] ids[i] < id,
    ensures
        v.in_fill_order(v.insert_by_count(ids, id)),
        forall|x: int| #[trigger]
            v.insert_by_count(ids, id).contains(x) <==> ids.contains(x) || x == id,
    decreases ids.len(),
{
    let out = v.insert_by_count(ids, id);
    if ids.len() == 0 || v.count(ids.last()) >= v.count(id) {
        assert forall|i: int, j: int| 0 <= i < j < out.len() implies v.fills_before(
            #[trigger] out[i],
            #[trigger] out[j],
        ) by {
            if j == ids.len() && i < ids.len() - 1 {
                assert(v.fills_before(ids[i], ids[ids.len() - 1]));
            }
        }
        assert forall|x: int| #[trigger] out.contains(x) <==> ids.contains(x) || x == id by {
            if ids.contains(x) {
                let k = choose|k: int| 0 <= k < ids.len() && ids[k] == x;
                assert(out[k] == x);
            }
            assert(out[ids.len() as int] == id);
            if out.contains(x) && x != id {
                let k = choose|k: int| 0 <= k < out.len() && out[k] == x;
                assert(ids[k] == x);
            }
        }
    } else {
        let front = ids.drop_last();
        let ins = v.insert_by_count(front, id);
        assert forall|i: int| 0 <= i < front.len() implies #[trigger] front[i] < id by {
            assert(front[i] == ids[i]);
        }
        assert forall|i: int, j: int| 0 <= i < j < front.len() implies v.fills_before(
            #[trigger] front[i],
            #[trigger] front[j],
        ) by {
            assert(v.fills_before(ids[i], ids[j]));
        }
        lemma_insert_by_count(v, front, id);
        assert forall|i: int, j: int| 0 <= i < j < out.len() implies v.fills_before(
            #[trigger] out[i],
            #[trigger] out[j],
        ) by {
            if j == out.len() - 1 {
                assert(ins.contains(ins[i]));
                if ins[i] != id {
                    let k = choose|k: int| 0 <= k < front.len() && front[k] == ins[i];
                    assert(v.fills_before(ids[k], ids[ids.len() - 1]));
                }
            } else {
                assert(out[i] == ins[i] && out[j] == ins[j]);
            }
        }
        assert forall|x: int| #[trigger] out.contains(x) <==> ids.contains(x) || x == id by {
            assert(ins.contains(x) <==> front.contains(x) || x == id);
            assert(out[out.len() - 1] == ids.last());
            assert(ids[ids.len() - 1] == ids.last());
            if ids.contains(x) && x != ids.last() {
                let k = choose|k: int| 0 <= k < ids.len() && ids[k] == x;
                assert(front[k] == x);
            }
            if front.contains(x) {
                let k = choose|k: int| 0 <= k < front.len() && front[k] == x;
                assert(ids[k] == x);
            }
            if ins.contains(x) {
                let k = choose|k: int| 0 <= k < ins.len() && ins[k] == x;
                assert(out[k] == x);
            }
            if out.contains(x) && x != ids.last() {
                let k = choose|k: int| 0 <= k < out.len() && out[k] == x;
                assert(ins[k] == x);
            }
        }
    }
}

/// The fill order lists exactly the partially filled parents of the group, each once, most
/// occupied first and then by ascending id.
pub proof fn lemma_fill_order(v: PoolView, group: u32, n: nat)
    ensures
        v.in_fill_order(v.fill_order(group, n)),
        v.fill_order(group, n).no_duplicates(),
        forall|x: int| #[trigger]
            v.fill_order(group, n).contains(x) <==> 1 <= x <= n && v.partial(group, x),
    decreases n,
{
    let out = v.fill_order(group, n);
    if n > 0 {
        let rest = v.fill_order(group, (n - 1) as nat);
        lemma_fill_order(v, group, (n - 1) as nat);
        if v.partial(group, n as int) {
            assert forall|i: int| 0 <= i < rest.len() implies #[trigger] rest[i] < n by {
                assert(rest.contains(rest[i]));
            }
            lemma_insert_by_count(v, rest, n as int);
        }
        assert forall|x: int| #[trigger] out.contains(x) <==> 1 <= x <= n && v.partial(
            group,
            x,
        ) by {
            assert(rest.contains(x) <==> 1 <= x <= n - 1 && v.partial(group, x));
        }
    }
    assert forall|i: int, j: int| 0 <= i < out.len() && 0 <= j < out.len() && i != j implies out[i]
        != out[j] by {
        if i < j {
            assert(v.fills_before(out[i], out[j]));
        } else {
            assert(v.fills_before(out[j], out[i]));
        }
    }
}

/// Whatever an acquisition plans can be occupied step by step.
pub proof fn lemma_plan_occupiable(v: PoolView, group: u32, per: int, count: nat)
    requires
        v.wf(),
        v.packing(group, per),
        0 < per <= i32::MAX,
        v.plan(group, per, count) is Some,
    ensures
        v.occupiable(group, per, v.plan(group, per, count)->0),
{
    let order = v.fill_order(group, v.parents.len());
    lemma_fill_order(v, group, v.parents.len());
    assert forall|i: int| 0 <= i < order.len() implies v.has_id(#[trigger] order[i]) && v.partial(
        group,
        order[i],
    ) by {
        assert(order.contains(order[i]));
    }
    lemma_sources_occupiable(v, group, per, order);
    let all = v.available(group, per);
    assert(all =~= all.take(count as int) + all.skip(count as int));
    lemma_occupy_all_concat(v, group, per, all.take(count as int), all.skip(count as int));
}

/// What has been gathered up to slot `k` of the parent at position `at` is a prefix of what
/// all the listed parents offer.
pub proof fn lemma_available_prefix(v: PoolView, ids: Seq<int>, per: int, at: int, k: nat)
    requires
        0 <= at < ids.len(),
        k <= per,
    ensures
        ({
            let part = v.gather(ids.take(at), per) + open_slots(
                ids[at],
                v.slots_for(ids[at], per),
                k,
            );
            part.len() <= v.gather(ids, per).len() && v.gather(ids, per).take(part.len() as int)
                == part
        }),
{
    let id = ids[at];
    let s = v.slots_for(id, per);
    lemma_open_slots_prefix(id, s, k, per as nat);
    let front = v.gather(ids.take(at), per);
    let part = front + open_slots(id, s, k);
    let upto = ids.take(at + 1);
    assert(upto.drop_last() =~= ids.take(at));
    assert(upto.last() == id);
    assert(ids =~= upto + ids.skip(at + 1));
    lemma_gather_concat(v, upto, ids.skip(at + 1), per);
    assert(v.gather(ids, per).take(part.len() as int) =~= part) by {
        assert(v.gather(upto, per) == front + open_slots(id, s, per as nat));
        let all = open_slots(id, s, per as nat);
        assert forall|i: int| 0 <= i < part.len() implies v.gather(ids, per)[i] == part[i] by {
            if i >= front.len() {
                assert(all.take(open_slots(id, s, k).len() as int)[i - front.len()]
                    == all[i - front.len()]);
            }
        }
    }
}

proof fn lemma_open_slots_prefix(id: int, slots: Seq<bool>, k: nat, n: nat)
    requires
        k <= n,
    ensures
        open_slots(id, slots, k).len() <= open_slots(id, slots, n).len(),
        open_slots(id, slots, n).take(open_slots(id, slots, k).len() as int) == open_slots(
            id,
            slots,
            k,
        ),
    decreases n,
{
    let a = open_slots(id, slots, k);
    if k == n {
        assert(a.take(a.len() as int) =~= a);
    } else {
        lemma_open_slots_prefix(id, slots, k, (n - 1) as nat);
        let b = open_slots(id, slots, (n - 1) as nat);
        assert(open_slots(id, slots, n).take(a.len() as int) =~= b.take(a.len() as int));
    }
}

/// Occupying a slot makes exactly that slot occupied.
pub proof fn lemma_occupy_occupied(
    v: PoolView,
    group: u32,
    per: int,
    loc: CacheBlockLocation,
    other: CacheBlockLocation,
)
    requires
        v.wf(),
        v.can_occupy(group, per, loc),
    ensures
        !v.occupied(loc),
        v.occupy(group, per, loc).occupied(other) <==> v.occupied(other) || other == loc,
{
    assert(v.parent_wf(loc.lcm_block_id as int));
}

/// Releasing a slot makes exactly that slot unoccupied.
pub proof fn lemma_release_occupied(
    v: PoolView,
    loc: CacheBlockLocation,
    other: CacheBlockLocation,
)
    requires
        v.wf(),
        v.occupied(loc),
    ensures
        v.release(loc).occupied(other) <==> v.occupied(other) && other != loc,
{
    let s = v.parent(loc.lcm_block_id as int).slots.update(loc.slot_index as int, false);
    lemma_count_bounds(s);
    if other.lcm_block_id == loc.lcm_block_id && v.occupied(other) && other != loc {
        assert(s[other.slot_index as int]);
    }
}

/// Releasing a slot undoes occupying it. A parent that was bound is exactly as before; a parent
/// that came off the front of the free queue is free again and stands at its back.
pub proof fn lemma_release_undoes_occupy(
    v: PoolView,
    group: u32,
    per: int,
    loc: CacheBlockLocation,
)
    requires
        v.wf(),
        v.packing(group, per),
        0 < per <= i32::MAX,
        v.can_occupy(group, per, loc),
    ensures
        v.occupy(group, per, loc).occupied(loc),
        v.occupy(group, per, loc).release(loc).parents == v.parents,
        v.occupy(group, per, loc).release(loc).free == if v.parent(
            loc.lcm_block_id as int,
        ).group is None {
            v.free.skip(1).push(v.free[0])
        } else {
            v.free
        },
{
    let id = loc.lcm_block_id as int;
    let w = v.occupy(group, per, loc);
    let s = v.slots_for(id, per);
    let back = w.parent(id).slots.update(loc.slot_index as int, false);
    assert(back =~= s);
    lemma_count_bounds(s);
    assert(v.parent_wf(id));
    if v.parent(id).group is None {
        assert(count_true(s) == 0);
        assert(v.parent(id).slots =~= Seq::empty());
    } else {
        assert(count_true(back) > 0);
    }
    assert(w.release(loc).parents =~= v.parents);
}

/// Occupying `locs` step by step makes exactly those slots occupied; none was before, and
/// none occurs twice.
pub proof fn lemma_occupy_all_occupied(
    v: PoolView,
    group: u32,
    per: int,
    locs: Seq<CacheBlockLocation>,
)
    requires
        v.wf(),
        v.packing(group, per),
        0 < per <= i32::MAX,
        v.occupiable(group, per, locs),
    ensures
        locs.no_duplicates(),
        forall|i: int| 0 <= i < locs.len() ==> !v.occupied(#[trigger] locs[i]),
        forall|x: CacheBlockLocation| #[trigger]
            v.occupy_all(group, per, locs).occupied(x) <==> v.occupied(x) || locs.contains(x),
    decreases locs.len(),
{
    if locs.len() > 0 {
        let front = locs.drop_last();
        let last = locs.last();
        lemma_occupy_all_occupied(v, group, per, front);
        lemma_occupy_all_wf(v, group, per, front);
        let u = v.occupy_all(group, per, front);
        lemma_occupy_occupied(u, group, per, last, last);
        assert forall|x: CacheBlockLocation| #[trigger]
            v.occupy_all(group, per, locs).occupied(x) <==> v.occupied(x) || locs.contains(x) by {
            lemma_occupy_occupied(u, group, per, last, x);
            assert(locs[locs.len() - 1] == last);
            if front.contains(x) {
                let k = choose|k: int| 0 <= k < front.len() && front[k] == x;
                assert(locs[k] == x);
            }
            if locs.contains(x) && x != last {
                let k = choose|k: int| 0 <= k < locs.len() && locs[k] == x;
                assert(front[k] == x);
            }
        }
        assert(!front.contains(last));
        assert forall|i: int, j: int|
            0 <= i < locs.len() && 0 <= j < locs.len() && i != j implies locs[i] != locs[j] by {
            if i < front.len() {
                assert(front[i] == locs[i]);
                assert(front.contains(front[i]));
            }
            if j < front.len() {
                assert(front[j] == locs[j]);
                assert(front.contains(front[j]));
            }
        }
        assert forall|i: int| 0 <= i < locs.len() implies !v.occupied(#[trigger] locs[i]) by {
            if i < front.len() {
                assert(front[i] == locs[i]);
            }
        }
    }
}

/// An acquisition hands out each location once, only locations that were unoccupied, and
/// leaves exactly the old and the planned locations occupied.
pub proof fn lemma_plan_is_fresh(v: PoolView, group: u32, per: int, count: nat)
    requires
        v.wf(),
        v.packing(group, per),
        0 < per <= i32::MAX,
        v.plan(group, per, count) is Some,
    ensures
        v.plan(group, per, count)->0.len() == count,
        v.plan(group, per, count)->0.no_duplicates(),
        forall|i: int| 0 <= i < count ==> !v.occupied(#[trigger] v.plan(group, per, count)->0[i]),
        forall|x: CacheBlockLocation| #[trigger]
            v.occupy_all(group, per, v.plan(group, per, count)->0).occupied(x) <==> v.occupied(x)
                || v.plan(group, per, count)->0.contains(x),
{
    lemma_plan_occupiable(v, group, per, count);
    lemma_occupy_all_occupied(v, group, per, v.plan(group, per, count)->0);
}

/// An acquisition never touches a parent that is bound to another group.
pub proof fn lemma_other_groups_untouched(
    v: PoolView,
    group: u32,
    per: int,
    locs: Seq<CacheBlockLocation>,
    id: int,
)
    requires
        v.wf(),
        v.packing(group, per),
        0 < per <= i32::MAX,
        v.occupiable(group, per, locs),
        v.has_id(id),
        v.parent(id).group is Some,
        v.parent(id).group != Some(group),
    ensures
        v.occupy_all(group, per, locs).parent(id) == v.parent(id),
    decreases locs.len(),
{
    if locs.len() > 0 {
        lemma_other_groups_untouched(v, group, per, locs.drop_last(), id);
        lemma_occupy_all_wf(v, group, per, locs.drop_last());
    }
}

/// Open slots of the listed parents.
pub open spec fn room(v: PoolView, ids: Seq<int>, per: int) -> nat
    decreases ids.len(),
{
    if ids.len() == 0 {
        0
    } else {
        room(v, ids.drop_last(), per) + (per - count_true(v.slots_for(ids.last(), per))) as nat
    }
}

/// An acquisition succeeds if and only if the open slots of the group's own partially filled
/// parents and the slots of all free parents together are enough.
pub proof fn lemma_plan_iff_room(v: PoolView, group: u32, per: int, count: nat)
    requires
        v.wf(),
        v.packing(group, per),
        0 < per <= i32::MAX,
    ensures
        v.plan(group, per, count) is Some <==> room(
            v,
            v.fill_order(group, v.parents.len()),
            per,
        ) + v.free.len() * per >= count,
{
    let order = v.fill_order(group, v.parents.len());
    lemma_fill_order(v, group, v.parents.len());
    lemma_gather_concat(v, order, v.free, per);
    assert forall|i: int| 0 <= i < order.len() implies #[trigger] v.has_id(order[i]) by {
        assert(order.contains(order[i]));
    }
    assert forall|i: int| 0 <= i < order.len() implies v.slots_for(
        #[trigger] order[i],
        per,
    ).len() == per by {
        assert(order.contains(order[i]));
        assert(v.has_id(order[i]));
    }
    lemma_gather_len(v, order, per);
    assert forall|i: int| 0 <= i < v.free.len() implies v.slots_for(
        #[trigger] v.free[i],
        per,
    ).len() == per by {
        assert(v.free.contains(v.free[i]));
    }
    assert forall|i: int| 0 <= i < v.free.len() implies v.parent(
        #[trigger] v.free[i],
    ).group is None by {
        assert(v.free.contains(v.free[i]));
    }
    lemma_gather_len(v, v.free, per);
    lemma_free_room(v, v.free, per);
}

proof fn lemma_gather_len(v: PoolView, ids: Seq<int>, per: int)
    requires
        0 < per,
        forall|i: int| 0 <= i < ids.len() ==> v.slots_for(#[trigger] ids[i], per).len() == per,
    ensures
        v.gather(ids, per).len() == room(v, ids, per),
    decreases ids.len(),
{
    if ids.len() > 0 {
        let front = ids.drop_last();
        assert forall|i: int| 0 <= i < front.len() implies v.slots_for(
            #[trigger] front[i],
            per,
        ).len() == per by {
            assert(front[i] == ids[i]);
        }
        lemma_gather_len(v, front, per);
        let s = v.slots_for(ids[ids.len() - 1], per);
        lemma_open_slots_len(ids.last(), s, per as nat);
        assert(s.take(per) =~= s);
        lemma_count_bounds(s);
    }
}

proof fn lemma_free_room(v: PoolView, ids: Seq<int>, per: int)
    requires
        0 < per,
        forall|i: int| 0 <= i < ids.len() ==> v.parent(#[trigger] ids[i]).group is None,
    ensures
        room(v, ids, per) == ids.len() * per,
    decreases ids.len(),
{
    if ids.len() > 0 {
        let front = ids.drop_last();
        assert forall|i: int| 0 <= i < front.len() implies v.parent(
            #[trigger] front[i],
        ).group is None by {
            assert(front[i] == ids[i]);
        }
        lemma_free_room(v, front, per);
        assert(v.parent(ids[ids.len() - 1]).group is None);
        let s = v.slots_for(ids.last(), per);
        lemma_count_bounds(s);
        assert((ids.len() - 1) * per + per == ids.len() * per) by (nonlinear_arith);
    }
}

/// The occupied locations of the first `n` parents.
pub open spec fn occupied_set(v: PoolView, n: nat) -> Set<CacheBlockLocation> {
    Set::new(|loc: CacheBlockLocation| v.occupied(loc) && loc.lcm_block_id <= n)
}

/// The occupied slots are as many as the sum of the parents' counts.
pub proof fn lemma_occupied_total(v: PoolView, n: nat)
    requires
        v.wf(),
        n <= v.parents.len(),
    ensures
        occupied_set(v, n).finite(),
        occupied_set(v, n).len() == total_occupied(v.parents.take(n as int)),
    decreases n,
{
    if n == 0 {
        assert(occupied_set(v, 0) =~= Set::empty());
    } else {
        let m = (n - 1) as nat;
        lemma_occupied_total(v, m);
        assert(v.parents.take(n as int).drop_last() =~= v.parents.take(m as int));
        assert(v.has_id(n as int));
        assert(v.parent_wf(n as int));
        let slots = v.parent(n as int).slots;
        lemma_taken_slots(v, n as int, slots.len());
        let taken = taken_slots(n as int, slots, slots.len());
        lemma_open_slots_len(n as int, slots, slots.len());
        assert(slots.take(slots.len() as int) =~= slots);
        taken.unique_seq_to_set();
        assert(occupied_set(v, n) =~= occupied_set(v, m) + taken.to_set());
        assert(occupied_set(v, m).disjoint(taken.to_set()));
        vstd::set_lib::lemma_set_disjoint_lens(occupied_set(v, m), taken.to_set());
    }
}

/// The listing of taken slots of a parent has each of them once.
pub proof fn lemma_taken_slots(v: PoolView, id: int, k: nat)
    requires
        v.wf(),
        v.has_id(id),
        k <= v.parent(id).slots.len(),
    ensures
        taken_slots(id, v.parent(id).slots, k).no_duplicates(),
        forall|loc: CacheBlockLocation| #[trigger]
            taken_slots(id, v.parent(id).slots, k).contains(loc) <==> v.occupied(loc)
                && loc.lcm_block_id == id && loc.slot_index < k,
    decreases k,
{
    assert(v.parent_wf(id));
    let slots = v.parent(id).slots;
    let out = taken_slots(id, slots, k);
    if k > 0 {
        lemma_taken_slots(v, id, (k - 1) as nat);
        let rest = taken_slots(id, slots, (k - 1) as nat);
        let loc0 = location(id, k - 1);
        assert(!rest.contains(loc0));
        assert forall|loc: CacheBlockLocation| #[trigger]
            out.contains(loc) <==> v.occupied(loc) && loc.lcm_block_id == id && loc.slot_index
                < k by {
            assert(rest.contains(loc) <==> v.occupied(loc) && loc.lcm_block_id == id
                && loc.slot_index < k - 1);
            if slots[k - 1] {
                assert(out[out.len() - 1] == loc0);
                if rest.contains(loc) {
                    let i = choose|i: int| 0 <= i < rest.len() && rest[i] == loc;
                    assert(out[i] == loc);
                }
                if out.contains(loc) && loc != loc0 {
                    let i = choose|i: int| 0 <= i < out.len() && out[i] == loc;
                    assert(rest[i] == loc);
                }
            }
        }
        if slots[k - 1] {
            assert forall|i: int, j: int|
                0 <= i < out.len() && 0 <= j < out.len() && i != j implies out[i] != out[j] by {
                if i < rest.len() {
                    assert(rest.contains(rest[i]));
                }
                if j < rest.len() {
                    assert(rest.contains(rest[j]));
                }
            }
        }
    }
}

} // verus!
