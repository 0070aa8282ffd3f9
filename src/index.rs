//! The hash index of a table: hashbrown's `HashTable` of `(hash, position)` pairs.
//!
//! Every pair is placed in the hashbrown table under its own first component, and the table
//! is only ever rehashed with that component. The contracts below rest on this.
use vstd::multiset::Multiset;
use vstd::prelude::*;

verus! {

/// The largest number of pairs the index is asked to hold.
pub const MAX_ENTRIES: usize = 0xFFFF_FFFF;

/// A hashbrown table of `(hash, position)` pairs.
#[verifier::external_body]
pub struct PosIndex {
    table: hashbrown::HashTable<(u64, usize)>,
}

/// The pairs held by an index.
pub uninterp spec fn slots(t: PosIndex) -> Multiset<(u64, usize)>;

/// Whether two pairs are the same.
pub fn same_slot(a: &(u64, usize), b: &(u64, usize)) -> (r: bool)
    ensures
        r == (*a == *b),
{
    a.0 == b.0 && a.1 == b.1
}

impl PosIndex {
    /// Relies on `HashTable::new`: the table starts empty.
    #[verifier::external_body]
    pub(crate) fn new() -> (r: Self)
        ensures
            slots(r) == Multiset::<(u64, usize)>::empty(),
    {
        PosIndex { table: hashbrown::HashTable::new() }
    }

    /// Relies on `HashTable::with_capacity`: the table starts empty; it panics only when the
    /// capacity overflows.
    #[verifier::external_body]
    pub(crate) fn with_capacity(capacity: usize) -> (r: Self)
        requires
            capacity <= MAX_ENTRIES,
        ensures
            slots(r) == Multiset::<(u64, usize)>::empty(),
    {
        PosIndex { table: hashbrown::HashTable::with_capacity(capacity) }
    }

    /// Relies on `HashTable::capacity`: the pairs held plus the room left before growing.
    #[verifier::external_body]
    pub(crate) fn capacity(&self) -> (r: usize)
        ensures
            r >= slots(*self).len(),
    {
        self.table.capacity()
    }

    /// Relies on `HashTable::clear`: every pair is removed.
    #[verifier::external_body]
    pub(crate) fn clear(&mut self)
        ensures
            slots(*final(self)) == Multiset::<(u64, usize)>::empty(),
    {
        self.table.clear()
    }

    /// Relies on `HashTable::reserve`: room is made, the pairs are kept; it panics only when
    /// the capacity overflows.
    #[verifier::external_body]
    pub(crate) fn reserve(&mut self, additional: usize)
        requires
            slots(*old(self)).len() + additional <= MAX_ENTRIES,
        ensures
            slots(*final(self)) == slots(*old(self)),
    {
        self.table.reserve(additional, |e| e.0)
    }

    /// Relies on `HashTable::shrink_to_fit`: unused room is released, the pairs are kept.
    #[verifier::external_body]
    pub(crate) fn shrink_to_fit(&mut self)
        ensures
            slots(*final(self)) == slots(*old(self)),
    {
        self.table.shrink_to_fit(|e| e.0)
    }

    /// Relies on `HashTable::insert_unique`: the pair is added under its hash.
    #[verifier::external_body]
    pub(crate) fn insert(&mut self, x: (u64, usize))
        requires
            slots(*old(self)).len() < MAX_ENTRIES,
        ensures
            slots(*final(self)) == slots(*old(self)).insert(x),
    {
        let _ = self.table.insert_unique(x.0, x, |e| e.0);
    }

    /// Relies on `HashTable::find_entry` and `OccupiedEntry::remove`: one copy of the pair is
    /// removed when there is one.
    #[verifier::external_body]
    pub(crate) fn remove(&mut self, x: (u64, usize)) -> (r: bool)
        ensures
            r == slots(*old(self)).contains(x),
            slots(*final(self)) == slots(*old(self)).remove(x),
    {
        match self.table.find_entry(x.0, |e| same_slot(e, &x)) {
            Ok(o) => {
                let _ = o.remove();
                true
            },
            Err(_) => false,
        }
    }

    /// Relies on `HashTable::find`: it returns a pair on which `eq` holds, or calls `eq`
    /// on every pair held under `hash` and returns nothing when all of them fail it.
    #[verifier::external_body]
    pub(crate) fn find<F: Fn(&(u64, usize)) -> bool>(&self, hash: u64, eq: F) -> (r: Option<
        (u64, usize),
    >)
        requires
            forall|x: (u64, usize)| eq.requires((&x,)),
        ensures
            r matches Some(x) ==> slots(*self).contains(x) && eq.ensures((&x,), true),
            r is None ==> forall|x: (u64, usize)|
                slots(*self).contains(x) && x.0 == hash ==> eq.ensures((&x,), false),
    {
        match self.table.find(hash, eq) {
            Some(x) => Some(*x),
            None => None,
        }
    }

    /// Relies on `HashTable::clone`: the copy holds the same pairs.
    #[verifier::external_body]
    pub(crate) fn duplicate(&self) -> (r: Self)
        ensures
            slots(r) == slots(*self),
    {
        PosIndex { table: self.table.clone() }
    }
}

} // verus!
