//! Handles on one key of a table: the record filed there, or the place it would go.
use crate::any::{CreateEntry, EntryAt, EntryFamily, HashEntry, KeyAt, ValueAt};
use crate::index::MAX_ENTRIES;
use crate::map::TypeMap;
use vstd::prelude::*;

verus! {

/// A handle on the record filed for `key`, at position `pos` of `table`.
pub struct OccupiedEntry<'a, A, E: EntryFamily<A>, I, Idx> {
    /// The key used to find the record.
    pub key: KeyAt<E, A>,
    /// Where the record stands.
    pub pos: usize,
    /// The table, borrowed for the life of the handle.
    pub table: &'a mut TypeMap<E, I>,
    /// The way the table's storage holds entries of `A`.
    pub marker: core::marker::PhantomData<Idx>,
}

/// A handle on the place where a record for `key` would be filed in `table`.
pub struct VacantEntry<'a, A, E: EntryFamily<A>, I, Idx> {
    /// The key used in the search.
    pub key: KeyAt<E, A>,
    /// The table, borrowed for the life of the handle.
    pub table: &'a mut TypeMap<E, I>,
    /// The way the table's storage holds entries of `A`.
    pub marker: core::marker::PhantomData<Idx>,
}

/// What a table holds for one key of one stored type.
pub enum Entry<'a, A, E: EntryFamily<A>, I, Idx> {
    /// A record is filed for the key.
    Occupied(OccupiedEntry<'a, A, E, I, Idx>),
    /// No record is filed for the key.
    Vacant(VacantEntry<'a, A, E, I, Idx>),
}

impl<'a, A, E: EntryFamily<A>, I: CreateEntry<A, E, Idx>, Idx> OccupiedEntry<'a, A, E, I, Idx> {
    /// The handle still points at the record of its key.
    pub open spec fn wf(&self) -> bool {
        self.table.wf() && self.table.holds::<A, Idx>(self.pos, self.key)
    }

    /// The key used to find the record.
    pub fn key(&self) -> (r: &KeyAt<E, A>)
        ensures
            *r == self.key,
    {
        &self.key
    }

    /// The whole entry filed for the key.
    pub fn hash_entry(&self) -> (r: &EntryAt<E, A>)
        requires
            self.wf(),
        ensures
            old(self.table).lookup::<A, Idx>(self.key) == Some(*r),
    {
        self.table.entry_at::<A, Idx>(self.pos, Ghost(self.key))
    }

    /// The value filed for the key.
    pub fn get(&self) -> (r: &ValueAt<E, A>)
        requires
            self.wf(),
        ensures
            old(self.table).lookup::<A, Idx>(self.key) matches Some(e) && *r == e.value(),
    {
        self.table.entry_at::<A, Idx>(self.pos, Ghost(self.key)).split_ref().1
    }

    /// The value filed for the key, mutably; the key stays.
    pub fn get_mut(&mut self) -> (r: &mut ValueAt<E, A>)
        requires
            old(self).wf(),
        ensures
            final(self).wf(),
            final(self).key == old(self).key,
            final(self).pos == old(self).pos,
            *final(final(self).table) == *final(old(self).table),
            old(self).table.lookup::<A, Idx>(old(self).key) matches Some(e) && *r == e.value(),
            final(self).table.lookup::<A, Idx>(old(self).key) matches Some(e2) && e2.key()
                == old(self).key && e2.value() == *final(r),
            final(self).table@ == old(self).table@.insert(
                crate::map::ident_of::<A, E, I, Idx>(old(self).key),
                final(self).table@[crate::map::ident_of::<A, E, I, Idx>(old(self).key)],
            ),
    {
        self.table.value_mut_at::<A, Idx>(self.pos, Ghost(self.key))
    }

    /// Replace the value filed for the key, keeping the key, and return the old value.
    pub fn insert(&mut self, value: ValueAt<E, A>) -> (r: ValueAt<E, A>)
        requires
            old(self).wf(),
        ensures
            final(self).wf(),
            final(self).key == old(self).key,
            final(self).pos == old(self).pos,
            *final(final(self).table) == *final(old(self).table),
            old(self).table.lookup::<A, Idx>(old(self).key) matches Some(e) && r == e.value(),
            final(self).table.lookup::<A, Idx>(old(self).key) matches Some(e2) && e2.key()
                == old(self).key && e2.value() == value,
            final(self).table@.dom() == old(self).table@.dom(),
    {
        let mut value = value;
        let place = self.table.value_mut_at::<A, Idx>(self.pos, Ghost(self.key));
        core::mem::swap(place, &mut value);
        value
    }

    /// Remove the record and return its whole entry.
    pub fn remove_entry(self) -> (r: EntryAt<E, A>)
        requires
            self.wf(),
        ensures
            old(self.table).lookup::<A, Idx>(self.key) == Some(r),
            final(self.table).wf(),
            final(self.table)@ == old(self.table)@.remove(crate::map::ident_of::<A, E, I, Idx>(self.key)),
    {
        let table = self.table;
        table.remove_at::<A, Idx>(self.pos, Ghost(self.key))
    }
}

impl<'a, A, E: EntryFamily<A>, I: CreateEntry<A, E, Idx>, Idx> VacantEntry<'a, A, E, I, Idx> {
    /// Nothing is filed for the handle's key, and there is room for one more record.
    pub open spec fn wf(&self) -> bool {
        &&& self.table.wf()
        &&& !self.table@.contains_key(crate::map::ident_of::<A, E, I, Idx>(self.key))
        &&& self.table@.len() < MAX_ENTRIES
    }

    /// The key used in the search.
    pub fn key(&self) -> (r: &KeyAt<E, A>)
        ensures
            *r == self.key,
    {
        &self.key
    }

    /// Give the key back, leaving the table as it is.
    pub fn into_key(self) -> (r: KeyAt<E, A>)
        ensures
            r == self.key,
            *final(self.table) == *old(self.table),
    {
        self.key
    }

    /// File the entry that `build` makes from the key, and return its value, mutably.
    pub fn insert<F: FnOnce(KeyAt<E, A>) -> EntryAt<E, A>>(self, build: F) -> (r: &'a mut ValueAt<
        E,
        A,
    >)
        requires
            self.wf(),
            build.requires((self.key,)),
            forall|e: EntryAt<E, A>| #[trigger] build.ensures((self.key,), e) ==> e.key() == self.key,
        ensures
            final(self.table).wf(),
            final(self.table).lookup::<A, Idx>(self.key) matches Some(e2) && e2.key() == self.key
                && e2.value() == *final(r),
            exists|e: EntryAt<E, A>| #[trigger] build.ensures((self.key,), e) && *r == e.value(),
            final(self.table)@.dom() == old(self.table)@.dom().insert(
                crate::map::ident_of::<A, E, I, Idx>(self.key),
            ),
            forall|id| #[trigger]
                old(self.table)@.contains_key(id) ==> final(self.table)@[id] == old(
                    self.table,
                )@[id],
    {
        let ghost key = self.key;
        let table = self.table;
        let ghost before = *table;
        let ghost after = *final(table);
        let e = build(self.key);
        let p = table.push_new::<A, Idx>(e);
        let ghost mid = *table;
        let v = table.value_mut_at::<A, Idx>(p, Ghost(key));
        proof {
            assert(build.ensures((key,), e));
            I::lemma_inject(e);
            assert(mid.lookup::<A, Idx>(key) == Some(e));
            assert(build.ensures((self.key,), e) && *v == e.value());
            assert(mid@.dom() =~= before@.dom().insert(crate::map::ident_of::<A, E, I, Idx>(key)));
            assert forall|id| #[trigger] before@.contains_key(id) implies after@[id]
                == before@[id] by {
                if id != crate::map::ident_of::<A, E, I, Idx>(key) {
                    assert(mid@[id] == before@[id]);
                }
            }
        }
        v
    }
}

impl<E, I: crate::any::HashableAny> TypeMap<E, I> {
    /// A handle on what the table holds for the key `key` of the stored type `A`.
    pub fn entry<A, Idx>(&mut self, key: KeyAt<E, A>) -> (r: Entry<'_, A, E, I, Idx>) where
        E: EntryFamily<A>,
        I: CreateEntry<A, E, Idx>,
        requires
            old(self).wf(),
            old(self)@.len() < MAX_ENTRIES,
        ensures
            r is Occupied <==> old(self).lookup::<A, Idx>(key) is Some,
            r matches Entry::Occupied(o) ==> o.wf() && o.key == key && *o.table == *old(self)
                && *final(o.table) == *final(self),
            r matches Entry::Vacant(v) ==> v.wf() && v.key == key && *v.table == *old(self)
                && *final(v.table) == *final(self),
    {
        match self.position::<A, Idx>(&key) {
            Option::Some(p) => Entry::Occupied(
                OccupiedEntry { key, pos: p, table: self, marker: core::marker::PhantomData },
            ),
            Option::None => Entry::Vacant(
                VacantEntry { key, table: self, marker: core::marker::PhantomData },
            ),
        }
    }
}

} // verus!
