//! In which order an acquisition takes the slots of the pool.

use vstd::prelude::*;

use crate::kv_block_pool::CacheBlockLocation;
use crate::placement::lemma_fill_order;
use crate::placement::location;
use crate::placement::open_slots;
use crate::placement::PoolView;

verus! {

/// The group can draw on the parent: it owns it and a slot is open, or the parent is free.
pub open spec fn drawn_on(v: PoolView, group: u32, id: int) -> bool {
    &&& 1 <= id <= v.parents.len()
    &&& v.partial(group, id) || v.parent(id).group is None
}

/// Parent `a` is drawn on before parent `b`: a parent of the group before a free one; of two
/// parents of the group the more occupied, and of two as occupied the lower; of two free ones the
/// one that was freed earlier.
pub open spec fn drawn_before(v: PoolView, group: u32, a: int, b: int) -> bool {
    if v.parent(a).group is Some {
        v.parent(b).group is None || v.count(a) > v.count(b) || (v.count(a) == v.count(b) && a < b)
    } else {
        v.parent(b).group is None && exists|i: int, j: int|
            0 <= i < j < v.free.len() && #[trigger] v.free[i] == a && #[trigger] v.free[j] == b
    }
}

/// Location `a` is taken before location `b`: on a parent drawn on before, or on the same parent
/// in a lower slot.
pub open spec fn taken_before(
    v: PoolView,
    group: u32,
    a: CacheBlockLocation,
    b: CacheBlockLocation,
) -> bool {
    if a.lcm_block_id == b.lcm_block_id {
        a.slot_index < b.slot_index
    } else {
        drawn_before(v, group, a.lcm_block_id as int, b.lcm_block_id as int)
    }
}

/// The location is an open slot that the group may take.
pub open spec fn takeable(v: PoolView, group: u32, per: int, loc: CacheBlockLocation) -> bool {
    let id = loc.lcm_block_id as int;
    &&& drawn_on(v, group, id)
    &&& 0 <= loc.slot_index < per
    &&& v.parent(id).group is Some ==> !v.parent(id).slots[loc.slot_index as int]
}

proof fn lemma_open_slots(id: int, slots: Seq<bool>, k: nat)
    requires
        k <= slots.len() <= i32::MAX,
        1 <= id <= i32::MAX,
    ensures
        ({
            let out = open_slots(id, slots, k);
            &&& forall|i: int|
                0 <= i < out.len() ==> (#[trigger] out[i]).lcm_block_id == id && 0
                    <= out[i].slot_index < k && !slots[out[i].slot_index as int]
            &&& forall|i: int, j: int|
                0 <= i < j < out.len() ==> (#[trigger] out[i]).slot_index < (
                #[trigger] out[j]).slot_index
            &&& forall|s: int|
                0 <= s < k && !slots[s] ==> out.contains(#[trigger] location(id, s))
        }),
    decreases k,
{
    if k > 0 {
        lemma_open_slots(id, slots, (k - 1) as nat);
        let rest = open_slots(id, slots, (k - 1) as nat);
        let out = open_slots(id, slots, k);
        assert forall|s: int| 0 <= s < k && !slots[s] implies out.contains(
            #[trigger] location(id, s),
        ) by {
            if s < k - 1 {
                assert(rest.contains(location(id, s)));
                let i = choose|i: int| 0 <= i < rest.len() && rest[i] == location(id, s);
                assert(out[i] == location(id, s));
            } else {
                assert(out[rest.len() as int] == location(id, s));
            }
        }
    }
}

/// The parents in a list can be drawn on, and each offers as many slots as the packing has.
spec fn offers(v: PoolView, group: u32, per: int, ids: Seq<int>) -> bool {
    forall|p: int|
        0 <= p < ids.len() ==> drawn_on(v, group, #[trigger] ids[p]) && v.slots_for(
            ids[p],
            per,
        ).len() == per
}

proof fn lemma_gathered(v: PoolView, group: u32, per: int, ids: Seq<int>)
    requires
        v.wf(),
        0 < per <= i32::MAX,
        ids.no_duplicates(),
        offers(v, group, per, ids),
    ensures
        ({
            let out = v.gather(ids, per);
            &&& forall|i: int|
                0 <= i < out.len() ==> takeable(v, group, per, #[trigger] out[i]) && ids.contains(
                    out[i].lcm_block_id as int,
                )
            &&& forall|i: int, j: int, p: int, q: int|
                #![trigger out[i], out[j], ids[p], ids[q]]
                0 <= i < j < out.len() && 0 <= p < ids.len() && 0 <= q < ids.len() && ids[p]
                    == out[i].lcm_block_id && ids[q] == out[j].lcm_block_id ==> p < q || (p == q
                    && out[i].slot_index < out[j].slot_index)
            &&& forall|loc: CacheBlockLocation| #[trigger]
                takeable(v, group, per, loc) && ids.contains(loc.lcm_block_id as int)
                    ==> out.contains(loc)
        }),
    decreases ids.len(),
{
    let out = v.gather(ids, per);
    if ids.len() > 0 {
        let front = ids.drop_last();
        let last = ids.last();
        let n = ids.len() - 1;
        assert(drawn_on(v, group, ids[n]));
        assert forall|p: int| 0 <= p < front.len() implies drawn_on(v, group, #[trigger] front[p])
            && v.slots_for(front[p], per).len() == per by {
            assert(front[p] == ids[p]);
        }
        lemma_gathered(v, group, per, front);
        let slots = v.slots_for(last, per);
        lemma_open_slots(last, slots, per as nat);
        let a = v.gather(front, per);
        let b = open_slots(last, slots, per as nat);
        assert forall|i: int| 0 <= i < out.len() implies takeable(v, group, per, #[trigger] out[i])
            && ids.contains(out[i].lcm_block_id as int) by {
            if i < a.len() {
                assert(out[i] == a[i]);
                let p = choose|p: int| 0 <= p < front.len() && front[p] == a[i].lcm_block_id;
                assert(ids[p] == a[i].lcm_block_id);
            } else {
                assert(out[i] == b[i - a.len()]);
                assert(ids[n] == out[i].lcm_block_id);
            }
        }
        assert forall|i: int, j: int, p: int, q: int|
            #![trigger out[i], out[j], ids[p], ids[q]]
            0 <= i < j < out.len() && 0 <= p < ids.len() && 0 <= q < ids.len() && ids[p]
                == out[i].lcm_block_id && ids[q] == out[j].lcm_block_id implies p < q || (p == q
            && out[i].slot_index < out[j].slot_index) by {
            if j < a.len() {
                assert(out[i] == a[i] && out[j] == a[j]);
                assert(front.contains(a[i].lcm_block_id as int));
                assert(front.contains(a[j].lcm_block_id as int));
                let x = choose|x: int| 0 <= x < front.len() && front[x] == a[i].lcm_block_id;
                let y = choose|y: int| 0 <= y < front.len() && front[y] == a[j].lcm_block_id;
                assert(ids[x] == ids[p] && ids[y] == ids[q]);
                assert(x == p && y == q);
                assert(front[p] == a[i].lcm_block_id && front[q] == a[j].lcm_block_id);
            } else if i < a.len() {
                assert(out[i] == a[i] && out[j] == b[j - a.len()]);
                assert(front.contains(a[i].lcm_block_id as int));
                let x = choose|x: int| 0 <= x < front.len() && front[x] == a[i].lcm_block_id;
                assert(ids[x] == ids[p]);
                assert(x == p);
                assert(ids[n] == ids[q]);
            } else {
                assert(out[i] == b[i - a.len()] && out[j] == b[j - a.len()]);
                assert(ids[n] == ids[p] && ids[n] == ids[q]);
            }
        }
        assert forall|loc: CacheBlockLocation| #[trigger]
            takeable(v, group, per, loc) && ids.contains(loc.lcm_block_id as int)
                implies out.contains(loc) by {
            let p = choose|p: int| 0 <= p < ids.len() && ids[p] == loc.lcm_block_id;
            if p < n {
                assert(front[p] == loc.lcm_block_id);
                assert(a.contains(loc));
                let i = choose|i: int| 0 <= i < a.len() && a[i] == loc;
                assert(out[i] == loc);
            } else {
                assert(location(last, loc.slot_index as int) == loc);
                assert(b.contains(loc));
                let i = choose|i: int| 0 <= i < b.len() && b[i] == loc;
                assert(out[a.len() + i] == loc);
            }
        }
    }
}

proof fn lemma_sources(v: PoolView, group: u32, per: int)
    requires
        v.wf(),
        v.packing(group, per),
        0 < per <= i32::MAX,
    ensures
        ({
            let ids = v.sources(group);
            &&& ids.no_duplicates()
            &&& offers(v, group, per, ids)
            &&& forall|id: int| #[trigger] drawn_on(v, group, id) ==> ids.contains(id)
            &&& forall|p: int, q: int|
                0 <= p < q < ids.len() ==> drawn_before(
                    v,
                    group,
                    #[trigger] ids[p],
                    #[trigger] ids[q],
                )
        }),
{
    let n = v.parents.len();
    let own = v.fill_order(group, n);
    let ids = v.sources(group);
    lemma_fill_order(v, group, n);
    assert forall|p: int| 0 <= p < own.len() implies v.has_id(#[trigger] own[p]) && v.partial(
        group,
        own[p],
    ) by {
        assert(own.contains(own[p]));
    }
    assert forall|p: int| 0 <= p < v.free.len() implies v.has_id(#[trigger] v.free[p]) && v.parent(
        v.free[p],
    ).group is None by {
        assert(v.free.contains(v.free[p]));
    }
    assert forall|p: int| 0 <= p < ids.len() implies drawn_on(v, group, #[trigger] ids[p])
        && v.slots_for(ids[p], per).len() == per by {
        if p < own.len() {
            assert(ids[p] == own[p]);
            assert(v.has_id(own[p]));
        } else {
            assert(ids[p] == v.free[p - own.len()]);
        }
    }
    assert forall|p: int, q: int| 0 <= p < q < ids.len() implies drawn_before(
        v,
        group,
        #[trigger] ids[p],
        #[trigger] ids[q],
    ) && ids[p] != ids[q] by {
        if q < own.len() {
            assert(ids[p] == own[p] && ids[q] == own[q]);
            assert(v.fills_before(own[p], own[q]));
        } else if p < own.len() {
            assert(ids[p] == own[p] && ids[q] == v.free[q - own.len()]);
        } else {
            assert(ids[p] == v.free[p - own.len()] && ids[q] == v.free[q - own.len()]);
        }
    }
    assert forall|id: int| #[trigger] drawn_on(v, group, id) implies ids.contains(id) by {
        if v.partial(group, id) {
            assert(own.contains(id));
            let p = choose|p: int| 0 <= p < own.len() && own[p] == id;
            assert(ids[p] == id);
        } else {
            assert(v.has_id(id));
            assert(v.free.contains(id));
            let p = choose|p: int| 0 <= p < v.free.len() && v.free[p] == id;
            assert(ids[own.len() + p] == id);
        }
    }
}

/// An acquisition takes open slots in their order, and takes the first: every slot that it leaves
/// open comes after all that it takes. So a group fills its own parents, the fullest first, before
/// it opens a free one.
pub proof fn lemma_takes_first(v: PoolView, group: u32, per: int, count: nat)
    requires
        v.wf(),
        v.packing(group, per),
        0 < per <= i32::MAX,
        v.plan(group, per, count) is Some,
    ensures
        ({
            let locs = v.plan(group, per, count)->0;
            &&& locs.len() == count
            &&& forall|i: int|
                0 <= i < locs.len() ==> takeable(v, group, per, #[trigger] locs[i])
            &&& forall|i: int, j: int|
                0 <= i < j < locs.len() ==> taken_before(
                    v,
                    group,
                    #[trigger] locs[i],
                    #[trigger] locs[j],
                )
            &&& forall|loc: CacheBlockLocation, i: int|
                #![trigger takeable(v, group, per, loc), locs[i]]
                takeable(v, group, per, loc) && !locs.contains(loc) && 0 <= i < locs.len()
                    ==> taken_before(v, group, locs[i], loc)
        }),
{
    let ids = v.sources(group);
    lemma_sources(v, group, per);
    lemma_gathered(v, group, per, ids);
    let all = v.available(group, per);
    let locs = v.plan(group, per, count)->0;
    assert forall|i: int, j: int| 0 <= i < j < all.len() implies taken_before(
        v,
        group,
        #[trigger] all[i],
        #[trigger] all[j],
    ) by {
        assert(ids.contains(all[i].lcm_block_id as int));
        assert(ids.contains(all[j].lcm_block_id as int));
        let p = choose|p: int| 0 <= p < ids.len() && ids[p] == all[i].lcm_block_id;
        let q = choose|q: int| 0 <= q < ids.len() && ids[q] == all[j].lcm_block_id;
        assert(p < q || (p == q && all[i].slot_index < all[j].slot_index));
        if p < q {
            assert(drawn_before(v, group, ids[p], ids[q]));
            assert(ids[p] != ids[q]);
        }
    }
    assert forall|i: int, j: int| 0 <= i < j < locs.len() implies taken_before(
        v,
        group,
        #[trigger] locs[i],
        #[trigger] locs[j],
    ) by {
        assert(locs[i] == all[i] && locs[j] == all[j]);
    }
    assert forall|loc: CacheBlockLocation, i: int|
        #![trigger takeable(v, group, per, loc), locs[i]]
        takeable(v, group, per, loc) && !locs.contains(loc) && 0 <= i < locs.len()
            implies taken_before(v, group, locs[i], loc) by {
        assert(drawn_on(v, group, loc.lcm_block_id as int));
        assert(all.contains(loc));
        let j = choose|j: int| 0 <= j < all.len() && all[j] == loc;
        if j < count {
            assert(locs[j] == loc);
        }
        assert(locs[i] == all[i]);
    }
}

} // verus!
