use std::collections::HashSet;

use mach_model::block_table::BlockTable;
use mach_model::kv_block_pool::{BlockPool, BlockPoolHandle, CacheBlockLocation, CacheBlockRef};
use mach_model::pool_identity::PoolIds;

fn pool(num_lcm_blocks: i32) -> (BlockPool, BlockPoolHandle) {
    let mut ids = PoolIds::new();
    (
        BlockPool::new(num_lcm_blocks),
        BlockPoolHandle::new(&mut ids),
    )
}

fn at(lcm_block_id: i32, slot_index: i32) -> CacheBlockLocation {
    CacheBlockLocation {
        lcm_block_id,
        slot_index,
    }
}

#[test]
fn new_pool_has_all_parents_free() {
    let (p, _h) = pool(4);
    assert_eq!(p.num_lcm_blocks(), 4);
    assert_eq!(p.num_empty_lcm_blocks(), 4);
    assert_eq!(p.num_occupied_slots(), 0);
}

#[test]
fn acquire_single_block_consumes_first_free_parent() {
    let (mut p, mut h) = pool(3);
    let block = p.acquire_block(&mut h, 7, 1).expect("block");
    assert_eq!(block.location(), Some(at(1, 0)));
    assert_eq!(p.num_empty_lcm_blocks(), 2);
    assert_eq!(p.bound_group(1), Some(7));
    assert_eq!(p.occupied_count(1), 1);
    assert_eq!(p.num_occupied_slots(), 1);
    assert!(p.is_occupied(at(1, 0)));
}

#[test]
fn packing_packs_children_into_same_parent_then_next() {
    let (mut p, mut h) = pool(2);
    let a = p.acquire_block(&mut h, 1, 2).expect("a");
    let b = p.acquire_block(&mut h, 1, 2).expect("b");
    let c = p.acquire_block(&mut h, 1, 2).expect("c");
    assert_eq!(a.location(), Some(at(1, 0)));
    assert_eq!(b.location(), Some(at(1, 1)));
    // Parent 1 is full; parent 2 is consumed next.
    assert_eq!(c.location(), Some(at(2, 0)));
    assert_eq!(p.num_empty_lcm_blocks(), 0);
    assert_eq!(p.num_occupied_slots(), 3);
}

#[test]
fn releasing_last_child_frees_parent_and_reuses_it() {
    let (mut p, mut h) = pool(2);
    let mut a = p.acquire_block(&mut h, 1, 2).expect("a");
    let mut b = p.acquire_block(&mut h, 1, 2).expect("b");
    a.reset(&mut p, &mut h);
    assert_eq!(p.num_occupied_slots(), 1);
    assert_eq!(p.num_empty_lcm_blocks(), 1); // parent 2 free, parent 1 still bound
    b.reset(&mut p, &mut h);
    assert_eq!(p.num_occupied_slots(), 0);
    assert_eq!(p.num_empty_lcm_blocks(), 2);
    // Release appends, allocation consumes the front: after both parents are free the queue is
    // [2, 1], so parent 2 is consumed next.
    let c = p.acquire_block(&mut h, 1, 2).expect("c");
    assert_eq!(c.location(), Some(at(2, 0)));
}

#[test]
fn plan_fills_most_occupied_parent_first() {
    let (mut p, mut h) = pool(3);
    // Fill parent 1 completely (2 slots) and parent 2 partially (1 slot).
    let mut a1 = p.acquire_block(&mut h, 1, 2).expect("a1");
    let a2 = p.acquire_block(&mut h, 1, 2).expect("a2");
    let b1 = p.acquire_block(&mut h, 1, 2).expect("b1");
    a1.reset(&mut p, &mut h); // parent 1 now 1/2, parent 2 now 1/2
    // Next acquisition prefers the most-occupied parent; both are 1/2 so the lowest id wins
    // (parent 1).
    let c = p.acquire_block(&mut h, 1, 2).expect("c");
    assert_eq!(c.location(), Some(at(1, 0)));
    let _ = (a2, b1);
}

#[test]
fn fuller_parent_wins_over_lower_id() {
    let (mut p, mut h) = pool(3);
    let mut blocks = p.acquire_blocks(&mut h, 4, 3, 6);
    assert_eq!(blocks.len(), 6);
    // Parent 1 keeps one block, parent 2 keeps two.
    blocks[0].reset(&mut p, &mut h);
    blocks[1].reset(&mut p, &mut h);
    blocks[4].reset(&mut p, &mut h);
    let next = p.acquire_block(&mut h, 4, 3).expect("next");
    assert_eq!(next.location(), Some(at(2, 1)));
}

#[test]
fn acquire_returns_empty_when_exhausted() {
    let (mut p, mut h) = pool(1);
    let mut a = p.acquire_block(&mut h, 1, 1).expect("a");
    let none = p.acquire_block(&mut h, 1, 1);
    assert!(none.is_none());
    a.reset(&mut p, &mut h);
    let some = p.acquire_block(&mut h, 1, 1);
    assert!(some.is_some());
}

#[test]
fn acquire_many_respects_partial_fill_then_free() {
    let (mut p, mut h) = pool(2);
    // Parent 1: 1 occupied, parent 2: free.
    let a = p.acquire_block(&mut h, 5, 2).expect("a");
    let got = p.acquire_blocks(&mut h, 5, 2, 3);
    assert_eq!(got.len(), 3);
    let locs: Vec<_> = got.iter().map(|r| r.location().unwrap()).collect();
    // parent 1 slot 1 (fill), then parent 2 slots 0,1.
    assert_eq!(locs, vec![at(1, 1), at(2, 0), at(2, 1)]);
    let _ = a;
}

#[test]
fn acquire_blocks_partial_failure_returns_empty() {
    let (mut p, mut h) = pool(1);
    let a = p.acquire_block(&mut h, 1, 2).expect("a");
    // Only one slot left; asking for 2 must return empty (all-or-nothing).
    assert!(p.acquire_blocks(&mut h, 1, 2, 2).is_empty());
    let _ = a;
}

#[test]
fn groups_do_not_share_a_parent() {
    let (mut p, mut h) = pool(2);
    let a = p.acquire_block(&mut h, 1, 2).expect("a");
    let b = p.acquire_block(&mut h, 2, 2).expect("b");
    assert_eq!(a.location(), Some(at(1, 0)));
    assert_eq!(b.location(), Some(at(2, 0)));
    assert_eq!(p.bound_group(2), Some(2));
    // Both parents are bound, each with one free slot.
    assert!(p.acquire_blocks(&mut h, 3, 2, 1).is_empty());
    assert_eq!(p.acquire_blocks(&mut h, 2, 2, 1)[0].location(), Some(at(2, 1)));
}

#[test]
fn pool_is_reusable_after_full_cycle() {
    let (mut p, mut h) = pool(3);
    let blocks: Vec<_> = p.acquire_blocks(&mut h, 9, 1, 3);
    assert_eq!(p.num_occupied_slots(), 3);
    assert_eq!(p.num_empty_lcm_blocks(), 0);
    for mut block in blocks {
        block.reset(&mut p, &mut h);
    }
    assert_eq!(p.num_occupied_slots(), 0);
    assert_eq!(p.num_empty_lcm_blocks(), 3);
}

#[test]
fn default_ref_is_null() {
    let (_p, h) = pool(1);
    let r: CacheBlockRef = CacheBlockRef::default();
    assert!(r.is_null());
    assert_eq!(r.location(), None);
    assert_eq!(r.use_count(&h), 0);
    assert!(!r.unique(&h));
    assert!(r.as_block().is_none());
}

#[test]
fn refs_share_identity_and_release_on_drop() {
    let (mut p, mut h) = pool(2);
    let mut a = p.acquire_block(&mut h, 1, 1).expect("block");
    let mut b = a.share(&mut h);
    assert_eq!(a.use_count(&h), 2);
    assert_eq!(a, b);
    assert!(!a.unique(&h));
    assert_eq!(a.location(), Some(at(1, 0)));
    assert!(a.is_owned_by(&h));
    b.reset(&mut p, &mut h);
    assert_eq!(a.use_count(&h), 1);
    assert!(a.unique(&h));
    a.reset(&mut p, &mut h);
    assert_eq!(p.num_occupied_slots(), 0);
    assert_eq!(p.num_empty_lcm_blocks(), 2);
}

#[test]
fn null_ref_never_equals_occupied_ref() {
    let (mut p, mut h) = pool(1);
    let a = p.acquire_block(&mut h, 1, 1).expect("block");
    let null = CacheBlockRef::default();
    assert_ne!(a, null);
    assert!(!null.is_owned_by(&h));
}

#[test]
fn null_refs_are_equal() {
    assert_eq!(CacheBlockRef::default(), CacheBlockRef::default());
}

#[test]
fn packing_binds_only_while_a_group_has_blocks() {
    let (mut p, mut h) = pool(2);
    let mut a = p.acquire_block(&mut h, 1, 2).expect("a");
    assert!(p.keeps_packing(1, 2));
    assert!(!p.keeps_packing(1, 3));
    assert!(p.keeps_packing(2, 3));
    // Nothing is asked of the packing where nothing is acquired.
    assert!(p.acquire_blocks(&mut h, 1, 3, 0).is_empty());
    a.reset(&mut p, &mut h);
    assert!(p.keeps_packing(1, 3));
    assert_eq!(p.acquire_blocks(&mut h, 1, 3, 3).len(), 3);
}

#[test]
fn blocks_of_two_pools_differ() {
    let mut ids = PoolIds::new();
    let mut p = BlockPool::new(1);
    let mut h = BlockPoolHandle::new(&mut ids);
    let mut other = BlockPool::new(1);
    let mut other_handle = BlockPoolHandle::new(&mut ids);
    assert!(ids.any_left());
    let a = p.acquire_block(&mut h, 1, 1).expect("a");
    let b = other.acquire_block(&mut other_handle, 1, 1).expect("b");
    assert_eq!(a.location(), b.location());
    assert_ne!(a, b);
    assert!(!a.is_owned_by(&other_handle));
    assert!(b.as_block().unwrap().is_owned_by(&other_handle));
    assert_eq!(b.as_block().unwrap().location(), at(1, 0));
}

#[test]
fn blocks_of_two_sources_differ() {
    let (mut p, mut h) = pool(1);
    let (mut other, mut other_handle) = pool(1);
    let a = p.acquire_block(&mut h, 1, 1).expect("a");
    let b = other.acquire_block(&mut other_handle, 1, 1).expect("b");
    assert_eq!(a.location(), b.location());
    assert_ne!(a, b);
    assert_ne!(a.as_block(), b.as_block());
    assert!(a.is_owned_by(&h) && b.is_owned_by(&other_handle));
    assert!(!a.is_owned_by(&other_handle));
    assert!(!b.is_owned_by(&h));
    let c = a.share(&mut h);
    assert_eq!(a, c);
}

#[test]
fn reset_releases_handle() {
    let (mut p, mut h) = pool(1);
    let mut a = p.acquire_block(&mut h, 1, 1).expect("block");
    assert_eq!(p.num_occupied_slots(), 1);
    a.reset(&mut p, &mut h);
    assert!(a.is_null());
    assert_eq!(p.num_occupied_slots(), 0);
}

#[test]
fn release_returns_a_slot() {
    let (mut p, mut h) = pool(1);
    let _a = p.acquire_blocks(&mut h, 3, 2, 2);
    p.release(at(1, 0));
    assert_eq!(p.occupied_locations(1), vec![at(1, 1)]);
    p.release(at(1, 1));
    assert_eq!(p.bound_group(1), None);
    assert_eq!(p.num_empty_lcm_blocks(), 1);
}

#[test]
fn block_table_starts_empty() {
    let table = BlockTable::default();
    assert!(table.rows().is_empty());
    assert_eq!(table.num_rows(), 0);
    assert_eq!(table.num_blocks(), 0);
    assert_eq!(table.available_tokens(), 0);
}

#[test]
fn append_page_maintains_padding_and_counts_blocks() {
    let mut table = BlockTable::default();
    table.append_page(101);
    table.append_page(0); // null hole
    table.append_page(103);
    assert_eq!(table.rows(), &[vec![101, 0, 103, -1]][..]);
    assert_eq!(table.num_rows(), 1);
    assert_eq!(table.num_blocks(), 2); // holes and padding are not blocks
}

#[test]
fn every_page_but_holes_is_a_block() {
    let mut table = BlockTable::default();
    table.append_page(-5);
    table.append_page(0);
    table.append_page(3);
    assert_eq!(table.rows(), &[vec![-5, 0, 3, -1]][..]);
    assert_eq!(table.num_blocks(), 2);
}

#[test]
fn begin_request_starts_a_new_row() {
    let mut table = BlockTable::default();
    table.begin_request();
    assert_eq!(table.rows(), &[vec![-1]][..]);
    table.append_page(7);
    table.begin_request();
    table.append_page(9);
    assert_eq!(table.rows(), &[vec![7, -1], vec![9, -1]][..]);
    assert_eq!(table.num_blocks(), 2);
}

#[test]
fn remove_last_page_rolls_back_and_drops_empty_rows() {
    let mut table = BlockTable::default();
    table.append_page(1);
    table.append_page(2);
    assert_eq!(table.remove_last_page(), Some(2));
    assert_eq!(table.rows(), &[vec![1, -1]][..]);
    assert_eq!(table.remove_last_page(), Some(1));
    // The emptied row (just the sentinel) is dropped.
    assert!(table.rows().is_empty());
    assert_eq!(table.remove_last_page(), None);
}

#[test]
fn available_tokens_round_trip() {
    let mut table = BlockTable::default();
    table.set_available_tokens(16);
    assert_eq!(table.available_tokens(), 16);
    table.set_available_tokens(0);
    assert_eq!(table.available_tokens(), 0);
}

struct Xs(u64);

impl Xs {
    fn new(seed: u64) -> Self {
        Self(seed.wrapping_add(0x9e37_79b9_7f4a_7c15))
    }

    fn next(&mut self) -> u64 {
        let mut x = self.0;
        x ^= x << 13;
        x ^= x >> 7;
        x ^= x << 17;
        self.0 = x;
        x
    }

    fn below(&mut self, n: usize) -> usize {
        (self.next() % n as u64) as usize
    }
}

fn check_pool_invariants(pool: &BlockPool, live: &[CacheBlockRef]) {
    let mut seen = HashSet::new();
    for b in live {
        let loc = b.location().expect("live block is non-null");
        assert!(seen.insert(loc), "duplicate live location {loc:?}");
        assert!(
            pool.is_occupied(loc),
            "live location {loc:?} must be occupied"
        );
    }
    assert_eq!(
        pool.num_occupied_slots() as usize,
        live.len(),
        "occupied slots must equal live blocks"
    );
    let occupied: HashSet<_> = (1..=pool.num_lcm_blocks())
        .flat_map(|id| pool.occupied_locations(id))
        .collect();
    assert_eq!(
        occupied.len(),
        live.len(),
        "pool-occupied == live locations"
    );
    for loc in &occupied {
        assert!(seen.contains(loc), "pool-occupied {loc:?} not tracked live");
    }
}

#[test]
fn random_acquire_release_preserves_pool_invariants() {
    let (mut p, mut h) = pool(8);
    let mut rng = Xs::new(0x5eed_1234);
    let mut live: Vec<CacheBlockRef> = Vec::new();
    for _ in 0..3000 {
        match rng.below(10) {
            0..=5 => {
                // Acquire 0..=3 blocks for a random group (all-or-nothing).
                let group = rng.below(3) as u32;
                let n = rng.below(4);
                let blocks = p.acquire_blocks(&mut h, group, 3, n);
                assert!(blocks.is_empty() || blocks.len() == n, "all-or-nothing");
                live.extend(blocks);
            }
            6..=8 => {
                // Drop a random live block (release its slot).
                if !live.is_empty() {
                    let idx = rng.below(live.len());
                    let mut b = live.swap_remove(idx);
                    b.reset(&mut p, &mut h);
                }
            }
            _ => {
                // Reset a random live block to null (also releases).
                if !live.is_empty() {
                    let idx = rng.below(live.len());
                    let mut b = live.swap_remove(idx);
                    b.reset(&mut p, &mut h);
                    assert!(b.is_null());
                }
            }
        }
        check_pool_invariants(&p, &live);
    }
}
