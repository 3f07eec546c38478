//! Identity of block pools.

use vstd::prelude::*;

use std::cell::Cell;
use std::rc::Rc;

verus! {

/// `Cell`, a piece of memory that can change behind a shared reference. Two cells are equal if
/// they are the same memory, whatever they hold.
#[verifier::external_type_specification]
#[verifier::external_body]
#[verifier::reject_recursive_types(T)]
pub struct ExCell<T: ?Sized>(Cell<T>);

/// `Cell::new`: a new cell. That it is none of the cells made before is left unsaid: it relates
/// one call to all others.
pub assume_specification<T>[ Cell::<T>::new ](value: T) -> (c: Cell<T>)
;

/// `Rc::ptr_eq`: whether two counted pointers point to the same allocation, and so hold the same
/// cell.
#[verifier::external_body]
fn same_cell(a: &Rc<Cell<u8>>, b: &Rc<Cell<u8>>) -> (r: bool)
    ensures
        r == (*a == *b),
{
    Rc::ptr_eq(a, b)
}

/// The source of pool numbers: it gives each of them out once.
pub struct PoolIds {
    next: u64,
}

impl View for PoolIds {
    type V = int;

    /// The number to give out next; all smaller ones were given out.
    closed spec fn view(&self) -> int {
        self.next as int
    }
}

impl PoolIds {
    /// A source that has given out nothing.
    pub fn new() -> (ids: Self)
        ensures
            ids@ == 0,
    {
        PoolIds { next: 0 }
    }

    /// Whether numbers are left.
    pub fn any_left(&self) -> (b: bool)
        ensures
            b == (self@ < u64::MAX),
    {
        self.next < u64::MAX
    }
}

/// Which pool a block belongs to: the number that the pool got from its source, and a cell that
/// only the pool and its blocks share. Pools of one source differ by their numbers, and pools of
/// two sources by their cells.
#[derive(Debug)]
pub struct PoolIdentity {
    number: u64,
    cell: Rc<Cell<u8>>,
}

impl PoolIdentity {
    pub closed spec fn spec_number(&self) -> u64 {
        self.number
    }

    pub closed spec fn spec_cell(&self) -> Cell<u8> {
        *self.cell
    }

    /// The identity of a new pool.
    pub fn new(ids: &mut PoolIds) -> (id: Self)
        requires
            old(ids)@ < u64::MAX,
        ensures
            id.spec_number() == old(ids)@,
            final(ids)@ == old(ids)@ + 1,
    {
        let number: u64 = ids.next;
        ids.next = number + 1;
        PoolIdentity { number, cell: Rc::new(Cell::new(0)) }
    }

    /// The same identity once more.
    pub fn share(&self) -> (id: Self)
        ensures
            id == *self,
    {
        PoolIdentity { number: self.number, cell: self.cell.clone() }
    }

    /// Whether both are the identity of one pool.
    pub fn same_as(&self, other: &PoolIdentity) -> (b: bool)
        ensures
            b == (*self == *other),
    {
        self.number == other.number && same_cell(&self.cell, &other.cell)
    }
}

/// An identity is its number and its cell.
pub proof fn lemma_identity(a: PoolIdentity, b: PoolIdentity)
    ensures
        a == b <==> a.spec_number() == b.spec_number() && a.spec_cell() == b.spec_cell(),
{
}

} // verus!
