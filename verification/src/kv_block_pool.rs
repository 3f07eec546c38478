//! Paged-KV block pool.
//!
//! [`BlockPool`] owns the physical placement of child slots inside parent blocks. It has no
//! cache key, LRU node or ownership count: it tracks which group a parent is bound to and which
//! child slots are occupied. [`BlockPoolHandle`] identifies one pool and counts, for each of its
//! live blocks, the [`CacheBlockRef`]s that share it; the slot returns to the pool when the last
//! of them is reset.

use vstd::prelude::*;

use std::collections::VecDeque;

use crate::placement::PoolView;
use crate::placement::ParentView;
use crate::pool_identity::PoolIdentity;
use crate::pool_identity::PoolIds;

verus! {

broadcast use vstd::std_specs::vecdeque::group_vec_dequeue_axioms;

/// Stable logical placement of one cache block inside a parent block. Parent 0 is reserved as
/// the kernel null page, so valid `lcm_block_id`s start at 1.
#[derive(Debug, Clone, Copy, PartialEq, Eq, Hash, Structural)]
pub struct CacheBlockLocation {
    pub lcm_block_id: i32,
    pub slot_index: i32,
}

/// One physical parent block.
struct LcmBlock {
    /// Group that owns this parent; unset while free.
    bound_group: Option<u32>,
    /// Child-slot occupancy; empty while free.
    occupancy: Vec<bool>,
    occupied_count: u32,
}

impl LcmBlock {
    spec fn view(&self) -> ParentView {
        ParentView { group: self.bound_group, slots: self.occupancy@ }
    }
}

/// Physical placement pool for one scheduler.
pub struct BlockPool {
    lcm_blocks: Vec<LcmBlock>,
    /// Free parents are interchangeable: release appends and allocation consumes the front.
    free_parent_ids: VecDeque<i32>,
}

impl View for BlockPool {
    type V = PoolView;

    closed spec fn view(&self) -> PoolView {
        PoolView {
            parents: self.lcm_blocks@.map_values(|b: LcmBlock| b.view()),
            free: self.free_parent_ids@.map_values(|id: i32| id as int),
        }
    }
}

impl BlockPool {
    spec fn counts_ok(&self) -> bool {
        forall|i: int|
            0 <= i < self.lcm_blocks.len() ==> (#[trigger] self.lcm_blocks[i]).occupied_count
                == crate::placement::count_true(self.lcm_blocks[i].occupancy@)
    }

    /// The pool invariant: the placement is well formed and the cached counts are right.
    pub closed spec fn wf(&self) -> bool {
        self.counts_ok() && self@.wf()
    }

    pub proof fn lemma_wf(&self)
        requires
            self.wf(),
        ensures
            self@.wf(),
    {
    }

    /// Builds a pool with `num_lcm_blocks` physical parents (ids `1..=n`), all free in id
    /// order.
    pub fn new(num_lcm_blocks: i32) -> (pool: Self)
        requires
            num_lcm_blocks >= 0,
        ensures
            pool.wf(),
            pool@.parents == Seq::new(
                num_lcm_blocks as nat,
                |i: int| ParentView { group: None, slots: Seq::empty() },
            ),
            pool@.free == Seq::new(num_lcm_blocks as nat, |i: int| i + 1),
    {
        let mut free_parent_ids: VecDeque<i32> = VecDeque::with_capacity(num_lcm_blocks as usize);
        let mut lcm_blocks: Vec<LcmBlock> = Vec::new();
        let mut id: i32 = 0;
        while id < num_lcm_blocks
            invariant
                0 <= id <= num_lcm_blocks,
                free_parent_ids@ == Seq::new(id as nat, |i: int| (i + 1) as i32),
                lcm_blocks.len() == id,
                forall|i: int|
                    0 <= i < id ==> (#[trigger] lcm_blocks[i]).bound_group is None
                        && lcm_blocks[i].occupancy@ == Seq::<bool>::empty()
                        && lcm_blocks[i].occupied_count == 0,
            decreases num_lcm_blocks - id,
        {
            id = id + 1;
            free_parent_ids.push_back(id);
            lcm_blocks.push(
                LcmBlock { bound_group: None, occupancy: Vec::new(), occupied_count: 0 },
            );
        }
        let pool = BlockPool { lcm_blocks, free_parent_ids };
        proof {
            let v = pool@;
            assert(v.free =~= Seq::new(num_lcm_blocks as nat, |i: int| i + 1));
            assert(v.parents =~= Seq::new(
                num_lcm_blocks as nat,
                |i: int| ParentView { group: None, slots: Seq::empty() },
            ));
            assert forall|i: int| #[trigger] v.has_id(i) implies v.parent_wf(i) by {}
            assert forall|i: int| #[trigger]
                v.free.contains(i) <==> v.has_id(i) && v.parent(i).group is None by {
                if v.has_id(i) {
                    assert(v.free[i - 1] == i);
                }
            }
        }
        pool
    }

    /// Number of physical parents (kernel page 0 is reserved separately).
    pub fn num_lcm_blocks(&self) -> (n: i32)
        requires
            self.wf(),
        ensures
            n == self@.parents.len(),
    {
        self.lcm_blocks.len() as i32
    }

    /// Number of completely free parents.
    pub fn num_empty_lcm_blocks(&self) -> (n: i32)
        requires
            self.wf(),
        ensures
            n == self@.free.len(),
    {
        proof {
            crate::placement::lemma_free_at_most(self@);
        }
        self.free_parent_ids.len() as i32
    }

    /// The parent with 1-based id `lcm_block_id`.
    fn lcm_block(&self, lcm_block_id: i32) -> (block: &LcmBlock)
        requires
            self.wf(),
            self@.has_id(lcm_block_id as int),
        ensures
            block.view() == self@.parent(lcm_block_id as int),
            block.occupied_count == self@.count(lcm_block_id as int),
            block == self.lcm_blocks[lcm_block_id - 1],
    {
        &self.lcm_blocks[lcm_block_id as usize - 1]
    }

    /// Group bound to a parent, if any.
    pub fn bound_group(&self, lcm_block_id: i32) -> (group: Option<u32>)
        requires
            self.wf(),
            self@.has_id(lcm_block_id as int),
        ensures
            group == self@.parent(lcm_block_id as int).group,
    {
        self.lcm_block(lcm_block_id).bound_group
    }

    /// Number of occupied child slots in a parent.
    pub fn occupied_count(&self, lcm_block_id: i32) -> (n: i32)
        requires
            self.wf(),
            self@.has_id(lcm_block_id as int),
        ensures
            n == self@.count(lcm_block_id as int),
    {
        proof {
            assert(self@.parent_wf(lcm_block_id as int));
            crate::placement::lemma_count_bounds(self@.parent(lcm_block_id as int).slots);
        }
        self.lcm_block(lcm_block_id).occupied_count as i32
    }

    /// Whether a specific child slot is occupied.
    pub fn is_occupied(&self, location: CacheBlockLocation) -> (b: bool)
        requires
            self.wf(),
            self@.has_id(location.lcm_block_id as int),
        ensures
            b == self@.occupied(location),
    {
        let parent = self.lcm_block(location.lcm_block_id);
        location.slot_index >= 0 && (location.slot_index as usize) < parent.occupancy.len()
            && parent.occupancy[location.slot_index as usize]
    }

    /// Total number of occupied child slots across all parents.
    pub fn num_occupied_slots(&self) -> (n: i32)
        requires
            self.wf(),
            crate::placement::total_occupied(self@.parents) <= i32::MAX,
        ensures
            n == crate::placement::total_occupied(self@.parents),
    {
        let mut total: i32 = 0;
        let mut i: usize = 0;
        let ghost parents = self@.parents;
        while i < self.lcm_blocks.len()
            invariant
                self.wf(),
                parents == self@.parents,
                i <= self.lcm_blocks.len(),
                total == crate::placement::total_occupied(parents.take(i as int)),
                crate::placement::total_occupied(parents) <= i32::MAX,
            decreases self.lcm_blocks.len() - i,
        {
            proof {
                assert(parents.take(i + 1).drop_last() =~= parents.take(i as int));
                assert(parents.take(i + 1).last() == parents[i as int]);
                crate::placement::lemma_total_prefix(parents, i + 1);
            }
            total = total + self.lcm_blocks[i].occupied_count as i32;
            i = i + 1;
        }
        proof {
            assert(parents.take(i as int) =~= parents);
        }
        total
    }

    /// Occupied child locations of one parent, in slot order.
    pub fn occupied_locations(&self, lcm_block_id: i32) -> (locations: Vec<CacheBlockLocation>)
        requires
            self.wf(),
            self@.has_id(lcm_block_id as int),
        ensures
            locations@ == crate::placement::taken_slots(
                lcm_block_id as int,
                self@.parent(lcm_block_id as int).slots,
                self@.parent(lcm_block_id as int).slots.len(),
            ),
    {
        let parent = self.lcm_block(lcm_block_id);
        let ghost slots = parent.occupancy@;
        proof {
            assert(self@.parent_wf(lcm_block_id as int));
        }
        let mut locations: Vec<CacheBlockLocation> = Vec::new();
        let mut slot: usize = 0;
        while slot < parent.occupancy.len()
            invariant
                slot <= parent.occupancy.len(),
                slots == parent.occupancy@,
                slots.len() <= i32::MAX,
                locations@ == crate::placement::taken_slots(
                    lcm_block_id as int,
                    slots,
                    slot as nat,
                ),
            decreases parent.occupancy.len() - slot,
        {
            if parent.occupancy[slot] {
                locations.push(CacheBlockLocation { lcm_block_id, slot_index: slot as i32 });
            }
            slot = slot + 1;
        }
        locations
    }

    /// Whether every parent bound to the group is divided into `slots_per_parent` slots, as an
    /// acquisition asks.
    pub fn keeps_packing(&self, group_id: u32, slots_per_parent: i32) -> (b: bool)
        requires
            self.wf(),
            slots_per_parent > 0,
        ensures
            b == self@.packing(group_id, slots_per_parent as int),
    {
        let mut index: usize = 0;
        while index < self.lcm_blocks.len()
            invariant
                self.wf(),
                slots_per_parent > 0,
                index <= self.lcm_blocks.len(),
                forall|id: int|
                    1 <= id <= index && (#[trigger] self@.parent(id)).group == Some(group_id)
                        ==> self@.parent(id).slots.len() == slots_per_parent,
            decreases self.lcm_blocks.len() - index,
        {
            let id: i32 = index as i32 + 1;
            assert(self@.has_id(id as int));
            let parent = self.lcm_block(id);
            let bound: bool = match parent.bound_group {
                Some(g) => g == group_id,
                None => false,
            };
            if bound && parent.occupancy.len() != slots_per_parent as usize {
                return false;
            }
            index = index + 1;
        }
        true
    }

    /// Returns a child slot to its parent. Once the last slot of a parent is released the
    /// parent is unbound and joins the back of the free queue.
    pub fn release(&mut self, location: CacheBlockLocation)
        requires
            old(self).wf(),
            old(self)@.occupied(location),
        ensures
            final(self).wf(),
            final(self)@ == old(self)@.release(location),
            forall|g: u32, p: int| #[trigger]
                old(self)@.packing(g, p) ==> final(self)@.packing(g, p),
    {
        let ghost v = self@;
        proof {
            crate::placement::lemma_release_wf(v, location);
            crate::placement::lemma_count_update(
                v.parent(location.lcm_block_id as int).slots,
                location.slot_index as int,
                false,
            );
        }
        let index: usize = location.lcm_block_id as usize - 1;
        let slot: usize = location.slot_index as usize;
        let parent = &mut self.lcm_blocks[index];
        parent.occupancy.set(slot, false);
        parent.occupied_count = parent.occupied_count - 1;
        if parent.occupied_count == 0 {
            parent.bound_group = None;
            parent.occupancy.clear();
            self.free_parent_ids.push_back(location.lcm_block_id);
        }
        proof {
            assert(self@.parents =~= v.release(location).parents);
            assert(self@.free =~= v.release(location).free);
        }
    }

    /// Commits a planned location: binds the parent on first use and marks the slot occupied.
    fn occupy(&mut self, group_id: u32, slots_per_parent: i32, location: CacheBlockLocation)
        requires
            old(self).wf(),
            slots_per_parent > 0,
            old(self)@.packing(group_id, slots_per_parent as int),
            old(self)@.can_occupy(group_id, slots_per_parent as int, location),
        ensures
            final(self).wf(),
            final(self)@ == old(self)@.occupy(group_id, slots_per_parent as int, location),
    {
        let ghost v = self@;
        let ghost w = v.occupy(group_id, slots_per_parent as int, location);
        let ghost s = v.slots_for(location.lcm_block_id as int, slots_per_parent as int);
        let index: usize = location.lcm_block_id as usize - 1;
        let slot: usize = location.slot_index as usize;
        proof {
            crate::placement::lemma_occupy_wf(v, group_id, slots_per_parent as int, location);
            crate::placement::lemma_count_update(s, slot as int, true);
            crate::placement::lemma_count_bounds(s);
            assert(v.parent_wf(location.lcm_block_id as int));
            crate::placement::lemma_count_bounds(v.parent(location.lcm_block_id as int).slots);
        }
        let parent = &mut self.lcm_blocks[index];
        if parent.occupied_count == 0 {
            parent.occupancy = vec![false; slots_per_parent as usize];
            parent.bound_group = Some(group_id);
            self.free_parent_ids.pop_front();
        }
        let parent = &mut self.lcm_blocks[index];
        assert(parent.occupancy@ =~= s);
        parent.occupancy.set(slot, true);
        parent.occupied_count = parent.occupied_count + 1;
        proof {
            assert(self@.parents =~= w.parents);
            assert(self@.free =~= w.free);
        }
    }

    /// Inserts a parent id behind every listed parent that is at least as occupied.
    fn insert_by_count(&self, ids: &mut Vec<i32>, id: i32)
        requires
            self.wf(),
            self@.has_id(id as int),
            forall|i: int| 0 <= i < old(ids).len() ==> self@.has_id(#[trigger] old(ids)[i] as int),
        ensures
            final(ids)@.map_values(|x: i32| x as int) == self@.insert_by_count(
                old(ids)@.map_values(|x: i32| x as int),
                id as int,
            ),
            forall|i: int|
                0 <= i < final(ids).len() ==> self@.has_id(#[trigger] final(ids)[i] as int),
    {
        let ghost s = ids@.map_values(|x: i32| x as int);
        let mut pos: usize = ids.len();
        proof {
            assert(s.take(pos as int) =~= s);
            assert(s.skip(pos as int) =~= Seq::empty());
            assert(self@.insert_by_count(s, id as int) =~= self@.insert_by_count(
                s.take(pos as int),
                id as int,
            ) + s.skip(pos as int));
        }
        while pos > 0 && self.lcm_block(ids[pos - 1]).occupied_count < self.lcm_block(
            id,
        ).occupied_count
            invariant
                self.wf(),
                self@.has_id(id as int),
                *ids == *old(ids),
                s == ids@.map_values(|x: i32| x as int),
                forall|i: int| 0 <= i < ids.len() ==> self@.has_id(#[trigger] ids[i] as int),
                pos <= ids.len(),
                self@.insert_by_count(s, id as int) == self@.insert_by_count(
                    s.take(pos as int),
                    id as int,
                ) + s.skip(pos as int),
            decreases pos,
        {
            proof {
                let front = s.take(pos as int);
                assert(front.drop_last() =~= s.take(pos - 1));
                assert(front.last() == ids[pos - 1]);
                let inner = self@.insert_by_count(s.take(pos - 1), id as int);
                assert(inner.push(front.last()) + s.skip(pos as int) =~= inner + s.skip(pos - 1));
            }
            pos = pos - 1;
        }
        proof {
            let front = s.take(pos as int);
            assert(pos > 0 ==> front.last() == ids[pos - 1]);
            assert(self@.insert_by_count(front, id as int) == front.push(id as int));
        }
        ids.insert(pos, id);
        proof {
            assert(ids@.map_values(|x: i32| x as int) =~= s.take(pos as int).push(id as int) + s.skip(
                pos as int,
            ));
        }
    }

    /// The partially filled parents of a group, most occupied first, then lowest id.
    fn fill_order(&self, group_id: u32) -> (ids: Vec<i32>)
        requires
            self.wf(),
        ensures
            ids@.map_values(|x: i32| x as int) == self@.fill_order(group_id, self@.parents.len()),
            forall|i: int| 0 <= i < ids.len() ==> self@.has_id(#[trigger] ids[i] as int),
    {
        let mut ids: Vec<i32> = Vec::new();
        let mut index: usize = 0;
        assert(ids@.map_values(|x: i32| x as int) =~= Seq::empty());
        while index < self.lcm_blocks.len()
            invariant
                self.wf(),
                index <= self.lcm_blocks.len(),
                ids@.map_values(|x: i32| x as int) == self@.fill_order(group_id, index as nat),
                forall|i: int| 0 <= i < ids.len() ==> self@.has_id(#[trigger] ids[i] as int),
            decreases self.lcm_blocks.len() - index,
        {
            proof {
                assert(self@.has_id(index + 1));
                assert(self@.parent_wf(index + 1));
            }
            let id: i32 = index as i32 + 1;
            let parent = self.lcm_block(id);
            let bound: bool = match parent.bound_group {
                Some(g) => g == group_id,
                None => false,
            };
            if bound && (parent.occupied_count as usize) < parent.occupancy.len() {
                self.insert_by_count(&mut ids, id);
            }
            index = index + 1;
        }
        ids
    }

    /// Plans `count` child locations: fills partially occupied parents of the group first
    /// (most occupied first, then lowest id), then consumes free parents from the front of
    /// the queue. `None` when the pool cannot satisfy the full request.
    fn plan_locations(&self, group_id: u32, slots_per_parent: i32, count: usize) -> (plan: Option<
        Vec<CacheBlockLocation>,
    >)
        requires
            self.wf(),
            slots_per_parent > 0,
            count > 0,
            self@.packing(group_id, slots_per_parent as int),
        ensures
            match plan {
                Some(locations) => self@.plan(group_id, slots_per_parent as int, count as nat)
                    == Some(locations@),
                None => self@.plan(group_id, slots_per_parent as int, count as nat) is None,
            },
    {
        let ghost per = slots_per_parent as int;
        let ghost order = self@.fill_order(group_id, self@.parents.len());
        let ghost sources = self@.sources(group_id);
        let ids = self.fill_order(group_id);
        proof {
            crate::placement::lemma_fill_order(self@, group_id, self@.parents.len());
        }
        let mut locations: Vec<CacheBlockLocation> = Vec::new();
        let mut i: usize = 0;
        assert(self@.gather(sources.take(0), per) =~= Seq::empty());
        while i < ids.len()
            invariant
                self.wf(),
                slots_per_parent > 0,
                per == slots_per_parent,
                self@.packing(group_id, per),
                i <= ids.len(),
                ids@.map_values(|x: i32| x as int) == order,
                order == self@.fill_order(group_id, self@.parents.len()),
                sources == order + self@.free,
                sources == self@.sources(group_id),
                forall|x: int| #[trigger]
                    order.contains(x) <==> 1 <= x <= self@.parents.len() && self@.partial(
                        group_id,
                        x,
                    ),
                locations@ == self@.gather(sources.take(i as int), per),
                locations.len() < count,
            decreases ids.len() - i,
        {
            let id: i32 = ids[i];
            proof {
                assert(order[i as int] == id);
                assert(order.contains(id as int));
                assert(sources.take(i + 1).drop_last() =~= sources.take(i as int));
                assert(sources.take(i + 1).last() == id);
                assert(self@.has_id(id as int));
                assert(self@.slots_for(id as int, per).len() == per);
            }
            let parent = self.lcm_block(id);
            let ghost before = locations@;
            let ghost s = self@.slots_for(id as int, per);
            let mut slot: usize = 0;
            assert(before + crate::placement::open_slots(id as int, s, 0) =~= before);
            while slot < parent.occupancy.len()
                invariant
                    slot <= parent.occupancy.len(),
                    parent.occupancy@ == s,
                    s.len() == per,
                    per == slots_per_parent,
                    locations@ == before + crate::placement::open_slots(
                        id as int,
                        s,
                        slot as nat,
                    ),
                    locations.len() < count,
                    sources == self@.sources(group_id),
                    i < sources.len(),
                    sources[i as int] == id,
                    before == self@.gather(sources.take(i as int), per),
                    s == self@.slots_for(id as int, per),
                decreases parent.occupancy.len() - slot,
            {
                if !parent.occupancy[slot] {
                    locations.push(
                        CacheBlockLocation { lcm_block_id: id, slot_index: slot as i32 },
                    );
                    assert(locations@ =~= before + crate::placement::open_slots(
                        id as int,
                        s,
                        (slot + 1) as nat,
                    ));
                    if locations.len() == count {
                        proof {
                            crate::placement::lemma_available_prefix(
                                self@,
                                sources,
                                per,
                                i as int,
                                (slot + 1) as nat,
                            );
                        }
                        return Some(locations);
                    }
                }
                slot = slot + 1;
            }
            i = i + 1;
        }
        assert(ids.len() == order.len());
        assert(sources.take(order.len() as int) =~= order);
        let mut f: usize = 0;
        while f < self.free_parent_ids.len()
            invariant
                self.wf(),
                slots_per_parent > 0,
                per == slots_per_parent,
                f <= self.free_parent_ids.len(),
                order == self@.fill_order(group_id, self@.parents.len()),
                sources == order + self@.free,
                sources == self@.sources(group_id),
                locations@ == self@.gather(sources.take(order.len() + f), per),
                locations.len() < count,
            decreases self.free_parent_ids.len() - f,
        {
            let id: i32 = self.free_parent_ids[f];
            let ghost at = order.len() + f;
            proof {
                assert(self@.free[f as int] == id);
                assert(self@.free.contains(id as int));
                assert(sources[at] == id);
                assert(sources.take(at + 1).drop_last() =~= sources.take(at));
                assert(sources.take(at + 1).last() == id);
            }
            let ghost before = locations@;
            let ghost s = self@.slots_for(id as int, per);
            let mut slot: i32 = 0;
            assert(before + crate::placement::open_slots(id as int, s, 0) =~= before);
            while slot < slots_per_parent
                invariant
                    0 <= slot <= slots_per_parent,
                    per == slots_per_parent,
                    s == Seq::new(per as nat, |i: int| false),
                    locations@ == before + crate::placement::open_slots(
                        id as int,
                        s,
                        slot as nat,
                    ),
                    locations.len() < count,
                    sources == self@.sources(group_id),
                    0 <= at < sources.len(),
                    sources[at] == id,
                    before == self@.gather(sources.take(at), per),
                    s == self@.slots_for(id as int, per),
                decreases slots_per_parent - slot,
            {
                locations.push(CacheBlockLocation { lcm_block_id: id, slot_index: slot });
                assert(locations@ =~= before + crate::placement::open_slots(
                    id as int,
                    s,
                    (slot + 1) as nat,
                ));
                if locations.len() == count {
                    proof {
                        crate::placement::lemma_available_prefix(
                            self@,
                            sources,
                            per,
                            at,
                            (slot + 1) as nat,
                        );
                    }
                    return Some(locations);
                }
                slot = slot + 1;
            }
            f = f + 1;
        }
        assert(sources.take(order.len() + f) =~= sources);
        None
    }
}

/// One live block of a pool and the number of handles that share it.
struct BlockOwner {
    location: CacheBlockLocation,
    handles: u32,
}

/// `owners` lists `loc`.
spec fn lists(owners: Seq<BlockOwner>, loc: CacheBlockLocation) -> bool {
    exists|i: int| 0 <= i < owners.len() && (#[trigger] owners[i]).location == loc
}

/// The handle count that `owners` records for `loc`.
spec fn handles_of(owners: Seq<BlockOwner>, loc: CacheBlockLocation) -> nat {
    owners[choose|i: int|
        0 <= i < owners.len() && (#[trigger] owners[i]).location == loc].handles as nat
}

/// Identity of one pool together with the handle counts of its live blocks.
pub struct BlockPoolHandle {
    id: PoolIdentity,
    owners: Vec<BlockOwner>,
}

/// The handle counts after fresh blocks at `locs` got their first handle.
pub open spec fn first_handles(
    counts: Map<CacheBlockLocation, nat>,
    locs: Seq<CacheBlockLocation>,
) -> Map<CacheBlockLocation, nat>
    decreases locs.len(),
{
    if locs.len() == 0 {
        counts
    } else {
        first_handles(counts, locs.drop_last()).insert(locs.last(), 1)
    }
}

/// The handle counts after one handle of the block at `loc` was given up.
pub open spec fn one_less(
    counts: Map<CacheBlockLocation, nat>,
    loc: CacheBlockLocation,
) -> Map<CacheBlockLocation, nat> {
    if counts[loc] == 1 {
        counts.remove(loc)
    } else {
        counts.insert(loc, (counts[loc] - 1) as nat)
    }
}

impl View for BlockPoolHandle {
    type V = Map<CacheBlockLocation, nat>;

    closed spec fn view(&self) -> Map<CacheBlockLocation, nat> {
        Map::new(
            |loc: CacheBlockLocation| lists(self.owners@, loc),
            |loc: CacheBlockLocation| handles_of(self.owners@, loc),
        )
    }
}

impl BlockPoolHandle {
    /// Identity of the pool.
    pub closed spec fn spec_id(&self) -> PoolIdentity {
        self.id
    }

    /// Each live block is listed once, with at least one handle.
    pub closed spec fn wf(&self) -> bool {
        &&& forall|i: int, j: int|
            0 <= i < j < self.owners.len() ==> (#[trigger] self.owners[i]).location != (
            #[trigger] self.owners[j]).location
        &&& forall|i: int| 0 <= i < self.owners.len() ==> (#[trigger] self.owners[i]).handles > 0
    }

    /// The live blocks are exactly the occupied slots of `pool`.
    pub open spec fn tracks(&self, pool: BlockPool) -> bool {
        &&& self.wf()
        &&& forall|loc: CacheBlockLocation| #[trigger]
            self@.contains_key(loc) <==> pool@.occupied(loc)
    }

    proof fn lemma_listed(&self, i: int)
        requires
            self.wf(),
            0 <= i < self.owners.len(),
        ensures
            self@.contains_key(self.owners[i].location),
            self@[self.owners[i].location] == self.owners[i].handles,
    {
        let loc = self.owners[i].location;
        let k = choose|k: int|
            0 <= k < self.owners.len() && (#[trigger] self.owners@[k]).location == loc;
        assert(self.owners@[i].location == loc);
        assert(0 <= k < self.owners.len() && self.owners@[k].location == loc);
        assert(self.owners[k].location == self.owners[i].location);
    }

    /// The number of occupied slots of the pool is the number of live blocks.
    pub proof fn lemma_live_blocks(&self, pool: BlockPool)
        requires
            pool.wf(),
            self.tracks(pool),
        ensures
            self@.dom().finite(),
            self@.dom().len() == crate::placement::total_occupied(pool@.parents),
    {
        let n = pool@.parents.len();
        crate::placement::lemma_occupied_total(pool@, n);
        assert(pool@.parents.take(n as int) =~= pool@.parents);
        assert(self@.dom() =~= crate::placement::occupied_set(pool@, n));
    }

    /// Every live block has a handle.
    pub proof fn lemma_positive(&self, loc: CacheBlockLocation)
        requires
            self.wf(),
            self@.contains_key(loc),
        ensures
            self@[loc] > 0,
    {
        let i = choose|i: int|
            0 <= i < self.owners.len() && (#[trigger] self.owners@[i]).location == loc;
        self.lemma_listed(i);
    }

    /// A handle for a new pool, with an identity that `ids` never gave out before and no live
    /// blocks.
    pub fn new(ids: &mut PoolIds) -> (handle: Self)
        requires
            old(ids)@ < u64::MAX,
        ensures
            handle.wf(),
            handle.spec_id().spec_number() == old(ids)@,
            final(ids)@ == old(ids)@ + 1,
            handle@ == Map::<CacheBlockLocation, nat>::empty(),
    {
        let handle = BlockPoolHandle { id: PoolIdentity::new(ids), owners: Vec::new() };
        assert(handle@ =~= Map::empty());
        handle
    }

    /// Position of a live block.
    fn find(&self, location: CacheBlockLocation) -> (at: Option<usize>)
        requires
            self.wf(),
        ensures
            match at {
                Some(i) => i < self.owners.len() && self.owners[i as int].location == location
                    && self@.contains_key(location) && self@[location]
                    == self.owners[i as int].handles,
                None => !self@.contains_key(location),
            },
    {
        let mut i: usize = 0;
        while i < self.owners.len()
            invariant
                self.wf(),
                i <= self.owners.len(),
                forall|j: int| 0 <= j < i ==> (#[trigger] self.owners[j]).location != location,
            decreases self.owners.len() - i,
        {
            if self.owners[i].location == location {
                proof {
                    self.lemma_listed(i as int);
                }
                return Some(i);
            }
            i = i + 1;
        }
        None
    }

    /// Records a fresh block with one handle.
    fn add_block(&mut self, location: CacheBlockLocation)
        requires
            old(self).wf(),
            !old(self)@.contains_key(location),
        ensures
            final(self).wf(),
            final(self).spec_id() == old(self).spec_id(),
            final(self)@ == old(self)@.insert(location, 1),
    {
        let ghost before = *self;
        assert forall|j: int| 0 <= j < self.owners.len() implies (
        #[trigger] self.owners[j]).location != location by {
            self.lemma_listed(j);
        }
        self.owners.push(BlockOwner { location, handles: 1 });
        proof {
            before.lemma_same_after_push(*self, location);
        }
    }

    proof fn lemma_same_after_push(&self, after: Self, location: CacheBlockLocation)
        requires
            self.wf(),
            after.wf(),
            !self@.contains_key(location),
            after.owners@ == self.owners@.push(BlockOwner { location, handles: 1 }),
        ensures
            after@ == self@.insert(location, 1),
    {
        let want = self@.insert(location, 1);
        let n = self.owners.len() as int;
        after.lemma_listed(n);
        assert forall|loc: CacheBlockLocation| #[trigger]
            after@.contains_key(loc) <==> want.contains_key(loc) by {
            if self@.contains_key(loc) {
                let i = choose|i: int|
                    0 <= i < self.owners.len() && (#[trigger] self.owners@[i]).location == loc;
                after.lemma_listed(i);
            }
            if after@.contains_key(loc) {
                let i = choose|i: int|
                    0 <= i < after.owners.len() && (#[trigger] after.owners@[i]).location == loc;
                if i < n {
                    self.lemma_listed(i);
                }
            }
        }
        assert forall|loc: CacheBlockLocation| #[trigger] after@.contains_key(loc) implies after@[loc]
            == want[loc] by {
            let i = choose|i: int|
                0 <= i < after.owners.len() && (#[trigger] after.owners@[i]).location == loc;
            after.lemma_listed(i);
            if i < n {
                self.lemma_listed(i);
            }
        }
        assert(after@ =~= want);
    }

    /// Changes the handle count of the block at position `at`.
    fn set_handles(&mut self, at: usize, handles: u32)
        requires
            old(self).wf(),
            at < old(self).owners.len(),
            handles > 0,
        ensures
            final(self).wf(),
            final(self).spec_id() == old(self).spec_id(),
            final(self)@ == old(self)@.insert(
                old(self).owners[at as int].location,
                handles as nat,
            ),
    {
        let ghost before = *self;
        let location: CacheBlockLocation = self.owners[at].location;
        self.owners.set(at, BlockOwner { location, handles });
        proof {
            let want = before@.insert(location, handles as nat);
            before.lemma_listed(at as int);
            self.lemma_listed(at as int);
            assert forall|i: int, j: int| 0 <= i < j < self.owners.len() implies (
            #[trigger] self.owners[i]).location != (#[trigger] self.owners[j]).location by {
                assert(before.owners[i].location != before.owners[j].location);
            }
            assert forall|loc: CacheBlockLocation| #[trigger]
                self@.contains_key(loc) <==> want.contains_key(loc) by {
                if before@.contains_key(loc) {
                    let i = choose|i: int|
                        0 <= i < before.owners.len() && (#[trigger] before.owners@[i]).location
                            == loc;
                    self.lemma_listed(i);
                }
                if self@.contains_key(loc) {
                    let i = choose|i: int|
                        0 <= i < self.owners.len() && (#[trigger] self.owners@[i]).location == loc;
                    before.lemma_listed(i);
                }
            }
            assert forall|loc: CacheBlockLocation| #[trigger]
                self@.contains_key(loc) implies self@[loc] == want[loc] by {
                let i = choose|i: int|
                    0 <= i < self.owners.len() && (#[trigger] self.owners@[i]).location == loc;
                self.lemma_listed(i);
                before.lemma_listed(i);
            }
            assert(self@ =~= want);
        }
    }

    /// Forgets the block at position `at`.
    fn remove_block(&mut self, at: usize)
        requires
            old(self).wf(),
            at < old(self).owners.len(),
        ensures
            final(self).wf(),
            final(self).spec_id() == old(self).spec_id(),
            final(self)@ == old(self)@.remove(old(self).owners[at as int].location),
    {
        let ghost before = *self;
        let ghost location = self.owners[at as int].location;
        self.owners.remove(at);
        proof {
            let want = before@.remove(location);
            assert forall|i: int| 0 <= i < self.owners.len() implies (#[trigger] self.owners[i])
                == before.owners[if i < at {
                i
            } else {
                i + 1
            }] by {}
            assert forall|loc: CacheBlockLocation| #[trigger]
                self@.contains_key(loc) <==> want.contains_key(loc) by {
                if want.contains_key(loc) {
                    let i = choose|i: int|
                        0 <= i < before.owners.len() && (#[trigger] before.owners@[i]).location
                            == loc;
                    self.lemma_listed(
                        if i < at {
                            i
                        } else {
                            i - 1
                        },
                    );
                }
                if self@.contains_key(loc) {
                    let i = choose|i: int|
                        0 <= i < self.owners.len() && (#[trigger] self.owners@[i]).location == loc;
                    let k = if i < at {
                        i
                    } else {
                        i + 1
                    };
                    before.lemma_listed(k);
                    assert(before.owners[k].location != before.owners[at as int].location);
                }
            }
            assert forall|loc: CacheBlockLocation| #[trigger]
                self@.contains_key(loc) implies self@[loc] == want[loc] by {
                let i = choose|i: int|
                    0 <= i < self.owners.len() && (#[trigger] self.owners@[i]).location == loc;
                self.lemma_listed(i);
                before.lemma_listed(
                    if i < at {
                        i
                    } else {
                        i + 1
                    },
                );
            }
            assert(self@ =~= want);
        }
    }
}

/// One block slot of one pool.
#[derive(Debug)]
pub struct CacheBlock {
    pool: PoolIdentity,
    location: CacheBlockLocation,
}

impl PartialEq for CacheBlock {
    fn eq(&self, other: &Self) -> (b: bool) {
        self.pool.same_as(&other.pool) && self.location == other.location
    }
}

impl vstd::std_specs::cmp::PartialEqSpecImpl for CacheBlock {
    open spec fn obeys_eq_spec() -> bool {
        true
    }

    open spec fn eq_spec(&self, other: &Self) -> bool {
        *self == *other
    }
}

impl Eq for CacheBlock {

}

impl CacheBlock {
    pub closed spec fn spec_pool(&self) -> PoolIdentity {
        self.pool
    }

    pub closed spec fn spec_location(&self) -> CacheBlockLocation {
        self.location
    }

    /// A block of `pool` at `location`.
    pub(crate) fn new(pool: &BlockPoolHandle, location: CacheBlockLocation) -> (block: Self)
        ensures
            block.spec_pool() == pool.spec_id(),
            block.spec_location() == location,
    {
        CacheBlock { pool: pool.id.share(), location }
    }

    /// Stable placement of this block.
    pub fn location(&self) -> (location: CacheBlockLocation)
        ensures
            location == self.spec_location(),
    {
        self.location
    }

    /// Whether this block belongs to `pool`.
    pub fn is_owned_by(&self, pool: &BlockPoolHandle) -> (b: bool)
        ensures
            b == (self.spec_pool() == pool.spec_id()),
    {
        self.pool.same_as(&pool.id)
    }
}

/// Shared, nullable handle to a [`CacheBlock`]. Equality is identity of the block, and an empty
/// handle is the null block. Handles are made by an acquisition or by [`CacheBlockRef::share`]
/// and given up by [`CacheBlockRef::reset`].
#[derive(Debug)]
pub struct CacheBlockRef(Option<CacheBlock>);

impl PartialEq for CacheBlockRef {
    fn eq(&self, other: &Self) -> (b: bool) {
        match (&self.0, &other.0) {
            (None, None) => true,
            (Some(a), Some(b)) => *a == *b,
            _ => false,
        }
    }
}

impl vstd::std_specs::cmp::PartialEqSpecImpl for CacheBlockRef {
    open spec fn obeys_eq_spec() -> bool {
        true
    }

    open spec fn eq_spec(&self, other: &Self) -> bool {
        *self == *other
    }
}

impl Eq for CacheBlockRef {

}

impl CacheBlockRef {
    /// The block this handle refers to.
    pub closed spec fn block(&self) -> Option<CacheBlock> {
        self.0
    }

    /// The handle is null or refers to a live block of the pool.
    pub open spec fn live(&self, handle: BlockPoolHandle) -> bool {
        match self.block() {
            None => true,
            Some(b) => b.spec_pool() == handle.spec_id() && handle@.contains_key(
                b.spec_location(),
            ),
        }
    }

    /// A handle to a fresh block.
    pub(crate) fn new(block: CacheBlock) -> (r: Self)
        ensures
            r.block() == Some(block),
    {
        CacheBlockRef(Some(block))
    }

    /// Whether this handle is empty (null block).
    pub fn is_null(&self) -> (b: bool)
        ensures
            b == (self.block() is None),
    {
        self.0.is_none()
    }

    /// Placement of the referenced block, or `None` for a null handle.
    pub fn location(&self) -> (location: Option<CacheBlockLocation>)
        ensures
            location == match self.block() {
                Some(b) => Some(b.spec_location()),
                None => None,
            },
    {
        match &self.0 {
            Some(block) => Some(block.location()),
            None => None,
        }
    }

    /// Number of live handles sharing this block (0 for a null handle).
    pub fn use_count(&self, handle: &BlockPoolHandle) -> (n: u32)
        requires
            handle.wf(),
            self.live(*handle),
        ensures
            n == match self.block() {
                Some(b) => handle@[b.spec_location()],
                None => 0,
            },
    {
        match &self.0 {
            Some(block) => match handle.find(block.location) {
                Some(at) => handle.owners[at].handles,
                None => 0,
            },
            None => 0,
        }
    }

    /// Whether this handle is the only live one.
    pub fn unique(&self, handle: &BlockPoolHandle) -> (b: bool)
        requires
            handle.wf(),
            self.live(*handle),
        ensures
            b == (self.block() matches Some(b) && handle@[b.spec_location()] == 1),
    {
        self.use_count(handle) == 1
    }

    /// Whether the referenced block belongs to `pool`.
    pub fn is_owned_by(&self, pool: &BlockPoolHandle) -> (b: bool)
        ensures
            b == (self.block() matches Some(b) && b.spec_pool() == pool.spec_id()),
    {
        match &self.0 {
            Some(block) => block.is_owned_by(pool),
            None => false,
        }
    }

    /// The underlying block, or `None` for a null handle.
    pub fn as_block(&self) -> (block: Option<&CacheBlock>)
        ensures
            block == match self.block() {
                Some(b) => Some(&b),
                None => None,
            },
    {
        self.0.as_ref()
    }

    /// Another handle to the same block.
    pub fn share(&self, handle: &mut BlockPoolHandle) -> (r: Self)
        requires
            old(handle).wf(),
            self.live(*old(handle)),
            self.block() matches Some(b) ==> old(handle)@[b.spec_location()] < u32::MAX,
        ensures
            final(handle).wf(),
            final(handle).spec_id() == old(handle).spec_id(),
            r == *self,
            final(handle)@ == match self.block() {
                Some(b) => old(handle)@.insert(
                    b.spec_location(),
                    old(handle)@[b.spec_location()] + 1,
                ),
                None => old(handle)@,
            },
    {
        match &self.0 {
            Some(block) => {
                if let Some(at) = handle.find(block.location) {
                    let n: u32 = handle.owners[at].handles + 1;
                    handle.set_handles(at, n);
                }
                CacheBlockRef(
                    Some(CacheBlock { pool: block.pool.share(), location: block.location }),
                )
            },
            None => CacheBlockRef(None),
        }
    }

    /// Gives up this handle's reference. The last handle of a block returns its slot to the
    /// pool.
    pub fn reset(&mut self, pool: &mut BlockPool, handle: &mut BlockPoolHandle)
        requires
            old(pool).wf(),
            old(handle).tracks(*old(pool)),
            old(self).live(*old(handle)),
        ensures
            final(self).block() is None,
            final(pool).wf(),
            final(handle).tracks(*final(pool)),
            final(handle).spec_id() == old(handle).spec_id(),
            forall|g: u32, p: int| #[trigger]
                old(pool)@.packing(g, p) ==> final(pool)@.packing(g, p),
            match old(self).block() {
                None => final(pool)@ == old(pool)@ && final(handle)@ == old(handle)@,
                Some(b) => {
                    let loc = b.spec_location();
                    &&& final(handle)@ == one_less(old(handle)@, loc)
                    &&& final(pool)@ == if old(handle)@[loc] == 1 {
                        old(pool)@.release(loc)
                    } else {
                        old(pool)@
                    }
                },
            },
    {
        if let Some(block) = self.0.take() {
            let location: CacheBlockLocation = block.location;
            if let Some(at) = handle.find(location) {
                let handles: u32 = handle.owners[at].handles;
                proof {
                    handle.lemma_positive(location);
                }
                if handles == 1 {
                    proof {
                        assert forall|loc: CacheBlockLocation|
                            pool@.release(location).occupied(loc) <==> pool@.occupied(loc) && loc
                                != location by {
                            crate::placement::lemma_release_occupied(pool@, location, loc);
                        }
                    }
                    handle.remove_block(at);
                    pool.release(location);
                } else {
                    handle.set_handles(at, handles - 1);
                }
            }
        }
    }
}

/// Equality of references is identity of the block: all null references are equal, a null one
/// equals no other, and two others are equal exactly if they name the same slot of the same
/// pool. Pools that got different numbers from their source are different.
pub proof fn lemma_same_block(a: CacheBlockRef, b: CacheBlockRef)
    ensures
        a == b <==> a.block() == b.block(),
        a.block() is None && b.block() is None ==> a == b,
        a.block() is None && b.block() is Some ==> a != b,
        (a.block() matches Some(x) && b.block() matches Some(y)) ==> {
            let (x, y) = (a.block()->0, b.block()->0);
            &&& a == b <==> x.spec_pool() == y.spec_pool() && x.spec_location()
                == y.spec_location()
            &&& x.spec_pool().spec_number() != y.spec_pool().spec_number() ==> a != b
        },
{
}

/// An acquired block is new: its reference differs from every reference that was live before,
/// from those of other pools, and from the others of the same acquisition.
pub proof fn lemma_acquired_is_new(
    pool: BlockPool,
    handle: BlockPoolHandle,
    group: u32,
    per: int,
    num: nat,
    blocks: Seq<CacheBlockRef>,
    i: int,
    other: CacheBlockRef,
)
    requires
        pool.wf(),
        handle.tracks(pool),
        0 < per <= i32::MAX,
        pool@.packing(group, per),
        pool@.plan(group, per, num) is Some,
        blocks.len() == num,
        forall|k: int|
            0 <= k < num ==> (#[trigger] blocks[k]).block() is Some
                && blocks[k].block()->0.spec_pool() == handle.spec_id()
                && blocks[k].block()->0.spec_location() == pool@.plan(group, per, num)->0[k],
        0 <= i < num,
    ensures
        other.live(handle) ==> blocks[i] != other,
        (other.block() matches Some(b) && b.spec_pool() != handle.spec_id()) ==> blocks[i]
            != other,
        forall|j: int| 0 <= j < num && j != i ==> blocks[i] != #[trigger] blocks[j],
{
    crate::placement::lemma_plan_is_fresh(pool@, group, per, num);
    let locs = pool@.plan(group, per, num)->0;
    assert(!pool@.occupied(locs[i]));
    assert(!handle@.contains_key(locs[i]));
    assert forall|j: int| 0 <= j < num && j != i implies blocks[i] != #[trigger] blocks[j] by {
        assert(locs[i] != locs[j]);
    }
}

impl Default for CacheBlockRef {
    /// The null handle.
    fn default() -> (r: Self)
        ensures
            r.block() is None,
    {
        CacheBlockRef(None)
    }
}

impl BlockPool {
    /// Acquires `num` blocks for `group_id`, or an empty vector when the pool cannot satisfy
    /// the full request (all-or-nothing).
    pub fn acquire_blocks(
        &mut self,
        handle: &mut BlockPoolHandle,
        group_id: u32,
        cache_blocks_per_lcm_block: i32,
        num: usize,
    ) -> (blocks: Vec<CacheBlockRef>)
        requires
            old(self).wf(),
            old(handle).tracks(*old(self)),
            cache_blocks_per_lcm_block > 0,
            num > 0 ==> old(self)@.packing(group_id, cache_blocks_per_lcm_block as int),
        ensures
            final(self).wf(),
            final(handle).tracks(*final(self)),
            final(handle).spec_id() == old(handle).spec_id(),
            num > 0 ==> final(self)@.packing(group_id, cache_blocks_per_lcm_block as int),
            forall|g: u32, p: int| #[trigger]
                old(self)@.packing(g, p) ==> g != group_id ==> final(self)@.packing(g, p),
            match old(self)@.plan(group_id, cache_blocks_per_lcm_block as int, num as nat) {
                Some(locs) => {
                    &&& blocks.len() == num
                    &&& forall|i: int|
                        0 <= i < num ==> (#[trigger] blocks[i]).block() is Some
                            && blocks[i].block()->0.spec_pool() == old(handle).spec_id()
                            && blocks[i].block()->0.spec_location() == locs[i]
                    &&& final(self)@ == old(self)@.occupy_all(
                        group_id,
                        cache_blocks_per_lcm_block as int,
                        locs,
                    )
                    &&& final(handle)@ == first_handles(old(handle)@, locs)
                },
                None => blocks.len() == 0 && final(self)@ == old(self)@ && final(handle)@ == old(
                    handle,
                )@,
            },
    {
        let ghost v = self@;
        let ghost per = cache_blocks_per_lcm_block as int;
        let ghost counts = handle@;
        if num == 0 {
            proof {
                assert(v.available(group_id, per).take(0) =~= Seq::empty());
            }
            return Vec::new();
        }
        let locations = match self.plan_locations(group_id, cache_blocks_per_lcm_block, num) {
            Some(locations) => locations,
            None => {
                return Vec::new();
            },
        };
        let ghost locs = locations@;
        proof {
            crate::placement::lemma_plan_occupiable(v, group_id, per, num as nat);
            assert(locs.take(0) =~= Seq::empty());
        }
        let mut blocks: Vec<CacheBlockRef> = Vec::with_capacity(num);
        let mut i: usize = 0;
        while i < locations.len()
            invariant
                i <= locations.len(),
                locations@ == locs,
                per == cache_blocks_per_lcm_block,
                0 < per,
                v.wf(),
                v.packing(group_id, per),
                v.occupiable(group_id, per, locs),
                self.wf(),
                handle.tracks(*self),
                handle.spec_id() == old(handle).spec_id(),
                self@ == v.occupy_all(group_id, per, locs.take(i as int)),
                handle@ == first_handles(counts, locs.take(i as int)),
                blocks.len() == i,
                forall|j: int|
                    0 <= j < i ==> (#[trigger] blocks[j]).block() is Some
                        && blocks[j].block()->0.spec_pool() == old(handle).spec_id()
                        && blocks[j].block()->0.spec_location() == locs[j],
            decreases locations.len() - i,
        {
            let location: CacheBlockLocation = locations[i];
            proof {
                let next = locs.take(i + 1);
                assert(next.drop_last() =~= locs.take(i as int));
                assert(next.last() == location);
                assert(locs =~= next + locs.skip(i + 1));
                crate::placement::lemma_occupy_all_concat(
                    v,
                    group_id,
                    per,
                    next,
                    locs.skip(i + 1),
                );
                crate::placement::lemma_occupy_all_wf(v, group_id, per, locs.take(i as int));
                assert forall|loc: CacheBlockLocation|
                    self@.occupy(group_id, per, location).occupied(loc) <==> self@.occupied(loc)
                        || loc == location by {
                    crate::placement::lemma_occupy_occupied(self@, group_id, per, location, loc);
                }
                crate::placement::lemma_occupy_occupied(
                    self@,
                    group_id,
                    per,
                    location,
                    location,
                );
            }
            let block = CacheBlock::new(handle, location);
            self.occupy(group_id, cache_blocks_per_lcm_block, location);
            handle.add_block(location);
            blocks.push(CacheBlockRef::new(block));
            i = i + 1;
        }
        proof {
            assert(locs.take(i as int) =~= locs);
            crate::placement::lemma_occupy_all_wf(v, group_id, per, locs);
        }
        blocks
    }

    /// Acquires a single block for `group_id`, or `None` when out of space.
    pub fn acquire_block(
        &mut self,
        handle: &mut BlockPoolHandle,
        group_id: u32,
        cache_blocks_per_lcm_block: i32,
    ) -> (block: Option<CacheBlockRef>)
        requires
            old(self).wf(),
            old(handle).tracks(*old(self)),
            cache_blocks_per_lcm_block > 0,
            old(self)@.packing(group_id, cache_blocks_per_lcm_block as int),
        ensures
            final(self).wf(),
            final(handle).tracks(*final(self)),
            final(handle).spec_id() == old(handle).spec_id(),
            final(self)@.packing(group_id, cache_blocks_per_lcm_block as int),
            forall|g: u32, p: int| #[trigger]
                old(self)@.packing(g, p) ==> g != group_id ==> final(self)@.packing(g, p),
            ({
                let all = old(self)@.available(group_id, cache_blocks_per_lcm_block as int);
                if all.len() > 0 {
                    &&& block is Some && block->0.block() is Some
                    &&& block->0.block()->0.spec_pool() == old(handle).spec_id()
                    &&& block->0.block()->0.spec_location() == all[0]
                    &&& final(self)@ == old(self)@.occupy(
                        group_id,
                        cache_blocks_per_lcm_block as int,
                        all[0],
                    )
                    &&& final(handle)@ == old(handle)@.insert(all[0], 1)
                } else {
                    block is None && final(self)@ == old(self)@ && final(handle)@ == old(handle)@
                }
            }),
    {
        let ghost v = self@;
        let ghost all = v.available(group_id, cache_blocks_per_lcm_block as int);
        let ghost counts = handle@;
        let mut blocks = self.acquire_blocks(handle, group_id, cache_blocks_per_lcm_block, 1);
        proof {
            if all.len() > 0 {
                let one = all.take(1);
                assert(one.drop_last() =~= Seq::empty());
                assert(one.last() == all[0]);
                assert(first_handles(counts, one.drop_last()) == counts);
                assert(v.occupy_all(
                    group_id,
                    cache_blocks_per_lcm_block as int,
                    one.drop_last(),
                ) == v);
            }
        }
        blocks.pop()
    }
}

} // verus!
