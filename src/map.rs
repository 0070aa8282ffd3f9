//! The table: erased records in a vector, found through a hash index.
use crate::any::{
    CreateEntry, DefaultKey, DynEq, DynPartialEq, EntryAt, EntryFamily, HashEntry, HashableAny,
    Ident, KeyAt, MapKey, ValueAt,
};
use crate::index::{PosIndex, MAX_ENTRIES};
use crate::storage::Here;
use crate::variants::CloneableHashableAny;
use vstd::prelude::*;

verus! {

/// The odd multiplier that spreads identities over all 64 bits of a hash.
pub const MIX: u64 = 0x9E37_79B9_7F4A_7C15;

/// The hash of a record identity: the stored type's tag mixed with the key's code.
pub open spec fn ident_hash(id: Ident) -> u64 {
    vstd::wrapping::u64_specs::wrapping_mul(
        crate::any::tag_code(id.0) ^ crate::any::key_code(id.1),
        MIX,
    )
}

/// Mix a type tag with a key hash.
pub fn mix(tag: u64, key_hash: u64) -> (r: u64)
    ensures
        r == vstd::wrapping::u64_specs::wrapping_mul(tag ^ key_hash, MIX),
{
    (tag ^ key_hash).wrapping_mul(MIX)
}

/// The identity under which the table files the key `k` of the stored type `A`.
pub open spec fn ident_of<A, E: EntryFamily<A>, I: CreateEntry<A, E, Idx>, Idx>(
    k: KeyAt<E, A>,
) -> Ident {
    (I::tag(), k.key_id())
}

/// Typed-entry wrapper: an entry of the family `E` at `A`, bound to that pair.
///
/// Used as the storage of a table that holds the one stored type `A`.
pub struct InnerEntry<E: EntryFamily<A>, A> {
    entry: EntryAt<E, A>,
    marker: core::marker::PhantomData<A>,
}

impl<E: EntryFamily<A>, A> InnerEntry<E, A> {
    /// The wrapped entry.
    pub closed spec fn entry_spec(&self) -> EntryAt<E, A> {
        self.entry
    }

    /// Wrap an entry.
    pub fn new(entry: EntryAt<E, A>) -> (r: Self)
        ensures
            r.entry_spec() == entry,
    {
        InnerEntry { entry, marker: core::marker::PhantomData }
    }

    /// The wrapped entry.
    pub fn entry(&self) -> (r: &EntryAt<E, A>)
        ensures
            *r == self.entry_spec(),
    {
        &self.entry
    }

    /// The key of the wrapped entry.
    pub fn key(&self) -> (r: &KeyAt<E, A>)
        ensures
            *r == self.entry_spec().key(),
    {
        self.entry.split_ref().0
    }

    /// The value of the wrapped entry.
    pub fn value(&self) -> (r: &<EntryAt<E, A> as HashEntry>::Value)
        ensures
            *r == self.entry_spec().value(),
    {
        self.entry.split_ref().1
    }

    /// The value of the wrapped entry, mutably; the key stays.
    pub fn value_mut(&mut self) -> (r: &mut <EntryAt<E, A> as HashEntry>::Value)
        ensures
            *r == old(self).entry_spec().value(),
            final(self).entry_spec().key() == old(self).entry_spec().key(),
            final(self).entry_spec().value() == *final(r),
    {
        self.entry.split_mut().1
    }

    /// Unwrap the entry.
    pub fn into_entry(self) -> (r: EntryAt<E, A>)
        ensures
            r == self.entry_spec(),
    {
        self.entry
    }
}

impl<E: EntryFamily<A>, A> HashableAny for InnerEntry<E, A> {
    open spec fn ident(&self) -> Ident {
        (0, self.entry_spec().key().key_id())
    }
}

impl<E: EntryFamily<A>, A> CreateEntry<A, E, Here> for InnerEntry<E, A> {
    open spec fn tag() -> nat {
        0
    }

    closed spec fn inject(e: EntryAt<E, A>) -> Self {
        InnerEntry { entry: e, marker: core::marker::PhantomData }
    }

    closed spec fn recover(&self) -> Option<EntryAt<E, A>> {
        Option::Some(self.entry)
    }

    proof fn lemma_inject(e: EntryAt<E, A>) {
    }

    proof fn lemma_recover(r: &Self) {
    }

    fn type_tag() -> (r: u64) {
        0
    }

    fn from_entry(e: EntryAt<E, A>) -> (r: Self) {
        InnerEntry { entry: e, marker: core::marker::PhantomData }
    }

    fn downcast_ref(&self) -> (r: Option<&EntryAt<E, A>>) {
        Option::Some(&self.entry)
    }

    fn downcast_mut(&mut self) -> (r: Option<&mut EntryAt<E, A>>) {
        Option::Some(&mut self.entry)
    }

    fn downcast(self) -> (r: Option<EntryAt<E, A>>) {
        Option::Some(self.entry)
    }
}

impl<E: EntryFamily<A>, A> CloneableHashableAny for InnerEntry<E, A> where
    EntryAt<E, A>: Copy,
 {
    fn clone_any(&self) -> (r: Self) {
        InnerEntry { entry: self.entry, marker: core::marker::PhantomData }
    }
}

impl<E: EntryFamily<A>, A> DynPartialEq for InnerEntry<E, A> where
    ValueAt<E, A>: MapKey,
 {
    open spec fn eq_dyn_spec(&self, other: &Self) -> bool {
        self.entry_spec() == other.entry_spec()
    }

    proof fn lemma_eq_dyn_ident(a: &Self, b: &Self) {
    }

    fn eq_dyn(&self, other: &Self) -> (r: bool) {
        let (k1, v1) = self.entry.split_ref();
        let (k2, v2) = other.entry.split_ref();
        proof {
            EntryAt::<E, A>::lemma_split_determines(&self.entry, &other.entry);
        }
        k1.key_eq(k2) && v1.key_eq(v2)
    }
}

impl<E: EntryFamily<A>, A> DynEq for InnerEntry<E, A> where ValueAt<E, A>: MapKey {
    proof fn lemma_eq_dyn_reflexive(a: &Self) {
    }
}

/// A stored record and the hash it was filed under.
struct RawEntry<I> {
    inner: I,
    hash: u64,
}

/// A hash table holding, for each stored type, entries of the shape that the family `E`
/// gives it, all erased into the storage type `I`.
///
/// Its view maps the identity of each record (the tag of its stored type and the id of its
/// key) to the record.
pub struct TypeMap<E, I> {
    records: Vec<RawEntry<I>>,
    index: PosIndex,
    marker: core::marker::PhantomData<E>,
}

impl<E, I: HashableAny> View for TypeMap<E, I> {
    type V = Map<Ident, I>;

    /// The records, by identity.
    closed spec fn view(&self) -> Map<Ident, I> {
        Map::new(|id: Ident| self.has_ident(id), |id: Ident| self.records@[self.pos_of(id)].inner)
    }
}

impl<E, I: HashableAny> TypeMap<E, I> {
    /// The identity of the record at position `i`.
    closed spec fn ident_at(&self, i: int) -> Ident {
        self.records@[i].inner.ident()
    }

    /// Whether some record has the identity `id`.
    closed spec fn has_ident(&self, id: Ident) -> bool {
        exists|i: int| 0 <= i < self.records@.len() && self.ident_at(i) == id
    }

    /// The position of the record with the identity `id`.
    closed spec fn pos_of(&self, id: Ident) -> int {
        choose|i: int| 0 <= i < self.records@.len() && self.ident_at(i) == id
    }

    /// The table is well formed: each record is filed under the hash of its identity, no two
    /// records share an identity, and the index holds exactly one pair for each record.
    pub closed spec fn wf(&self) -> bool {
        &&& self.records@.len() <= MAX_ENTRIES
        &&& forall|i: int|
            0 <= i < self.records@.len() ==> #[trigger] self.records@[i].hash == ident_hash(
                self.ident_at(i),
            )
        &&& forall|i: int, j: int|
            0 <= i < self.records@.len() && 0 <= j < self.records@.len() && i != j
                ==> #[trigger] self.ident_at(i) != #[trigger] self.ident_at(j)
        &&& forall|x: (u64, usize)| #[trigger]
            crate::index::slots(self.index).count(x) == if (x.1 as int) < self.records@.len()
                && self.records@[x.1 as int].hash == x.0 {
                1nat
            } else {
                0nat
            }
        &&& crate::index::slots(self.index).len() == self.records@.len()
        &&& self.view().dom().finite()
        &&& self.view().len() == self.records@.len()
    }

    /// `m` maps the identity of each record to that record, and holds nothing else.
    closed spec fn represents(&self, m: Map<Ident, I>) -> bool {
        &&& forall|i: int|
            0 <= i < self.records@.len() ==> #[trigger] m.contains_key(self.ident_at(i))
                && m[self.ident_at(i)] == self.records@[i].inner
        &&& forall|id: Ident| #[trigger] m.contains_key(id) ==> self.has_ident(id)
    }

    proof fn lemma_represents(&self, m: Map<Ident, I>)
        requires
            self.represents(m),
        ensures
            self.view() == m,
    {
        assert forall|id: Ident| #[trigger] self.view().contains_key(id) <==> m.contains_key(id) by {
            if self.has_ident(id) {
                let i = self.pos_of(id);
                assert(self.ident_at(i) == id);
            }
        }
        assert forall|id: Ident| #[trigger] self.view().contains_key(id) implies self.view()[id]
            == m[id] by {
            let i = self.pos_of(id);
            assert(self.ident_at(i) == id);
        }
        assert(self.view() =~= m);
    }

    /// The entry filed for the key `k` of the stored type `A`, if any.
    pub open spec fn lookup<A, Idx>(&self, k: KeyAt<E, A>) -> Option<EntryAt<E, A>> where
        E: EntryFamily<A>,
        I: CreateEntry<A, E, Idx>,
     {
        if self.view().contains_key(ident_of::<A, E, I, Idx>(k)) {
            self.view()[ident_of::<A, E, I, Idx>(k)].recover()
        } else {
            None
        }
    }

    proof fn lemma_same_records(&self, other: &Self)
        requires
            other.wf(),
            self.records@ == other.records@,
        ensures
            self.view() == other.view(),
    {
        let m = other.view();
        assert forall|i: int| 0 <= i < self.records@.len() implies #[trigger] m.contains_key(
            self.ident_at(i),
        ) && m[self.ident_at(i)] == self.records@[i].inner by {
            other.lemma_view_at(i);
        }
        assert forall|id: Ident| #[trigger] m.contains_key(id) implies self.has_ident(id) by {
            let i = other.pos_of(id);
            assert(other.ident_at(i) == id);
            assert(self.ident_at(i) == id);
        }
        self.lemma_represents(m);
    }

    proof fn lemma_same_shape(&self, other: &Self)
        requires
            other.wf(),
            self.records@ == other.records@,
            crate::index::slots(self.index) == crate::index::slots(other.index),
        ensures
            self.wf(),
            self.view() == other.view(),
    {
        self.lemma_same_records(other);
        assert forall|i: int| 0 <= i < self.records@.len() implies #[trigger] self.ident_at(i)
            == other.ident_at(i) by {
        }
        assert forall|i: int, j: int|
            0 <= i < self.records@.len() && 0 <= j < self.records@.len() && i != j
                implies #[trigger] self.ident_at(i) != #[trigger] self.ident_at(j) by {
            assert(self.ident_at(i) == other.ident_at(i));
            assert(self.ident_at(j) == other.ident_at(j));
        }
    }

    /// In a well-formed table the view is finite and each record is filed under its own
    /// identity.
    pub proof fn lemma_view_idents(&self)
        requires
            self.wf(),
        ensures
            self@.dom().finite(),
            forall|id: Ident| #[trigger] self@.contains_key(id) ==> self@[id].ident() == id,
    {
        assert forall|id: Ident| #[trigger] self@.contains_key(id) implies self@[id].ident()
            == id by {
            let i = self.pos_of(id);
            assert(self.ident_at(i) == id);
        }
    }

    proof fn lemma_view_at(&self, i: int)
        requires
            self.wf(),
            0 <= i < self.records@.len(),
        ensures
            self.view().contains_key(self.ident_at(i)),
            self.view()[self.ident_at(i)] == self.records@[i].inner,
            self.pos_of(self.ident_at(i)) == i,
    {
        let id = self.ident_at(i);
        assert(self.has_ident(id));
        let j = self.pos_of(id);
        assert(self.ident_at(j) == id);
    }

    /// Whether the record at position `p` of `records` has the identity `id`.
    closed spec fn holds_at(records: Seq<RawEntry<I>>, p: usize, id: Ident) -> bool {
        (p as int) < records.len() && records[p as int].inner.ident() == id
    }

    /// Whether `rec` is the record of the key `k` of the stored type `A`.
    fn record_matches<A, Idx>(rec: &I, k: &KeyAt<E, A>) -> (r: bool) where
        E: EntryFamily<A>,
        I: CreateEntry<A, E, Idx>,
        ensures
            r == (rec.ident() == ident_of::<A, E, I, Idx>(*k)),
    {
        proof {
            I::lemma_recover(rec);
        }
        match rec.downcast_ref() {
            Option::Some(e) => {
                proof {
                    I::lemma_inject(*e);
                    KeyAt::<E, A>::lemma_key_id_injective(&e.key(), k);
                }
                e.split_ref().0.key_eq(k)
            },
            Option::None => false,
        }
    }

    /// The hash under which the key `k` of `A` is filed.
    fn hash_key<A, Idx>(k: &KeyAt<E, A>) -> (r: u64) where
        E: EntryFamily<A>,
        I: CreateEntry<A, E, Idx>,
        ensures
            r == ident_hash(ident_of::<A, E, I, Idx>(*k)),
    {
        mix(I::type_tag(), k.key_hash())
    }

    /// The position of the record of the key `k` of `A`, if there is one.
    fn find_pos<A, Idx>(&self, hash: u64, k: &KeyAt<E, A>) -> (r: Option<usize>) where
        E: EntryFamily<A>,
        I: CreateEntry<A, E, Idx>,
        requires
            self.wf(),
            hash == ident_hash(ident_of::<A, E, I, Idx>(*k)),
        ensures
            r matches Some(p) ==> p < self.records@.len() && self.ident_at(p as int)
                == ident_of::<A, E, I, Idx>(*k),
            r is None ==> !self.view().contains_key(ident_of::<A, E, I, Idx>(*k)),
    {
        let records = &self.records;
        let ghost id = ident_of::<A, E, I, Idx>(*k);
        let found = self.index.find(
            hash,
            (|e: &(u64, usize)| -> (b: bool)
                ensures
                    b == Self::holds_at(records@, e.1, id),
                {
                    if e.1 < records.len() {
                        Self::record_matches::<A, Idx>(&records[e.1].inner, k)
                    } else {
                        false
                    }
                }),
        );
        match found {
            Option::Some(x) => {
                assert(Self::holds_at(records@, x.1, id));
                Option::Some(x.1)
            },
            Option::None => {
                proof {
                    if self.view().contains_key(id) {
                        assert(self.has_ident(id));
                        let i = self.pos_of(id);
                        assert(self.ident_at(i) == id);
                        assert(self.records@[i].hash == hash);
                        let x = (hash, i as usize);
                        assert(crate::index::slots(self.index).count(x) == 1);
                        assert(crate::index::slots(self.index).contains(x));
                        assert(Self::holds_at(records@, x.1, id));
                    }
                }
                Option::None
            },
        }
    }
}


impl<E, I: HashableAny> TypeMap<E, I> {
    /// An empty table.
    pub fn new() -> (r: Self)
        ensures
            r.wf(),
            r@ == Map::<Ident, I>::empty(),
    {
        let r = TypeMap {
            records: Vec::new(),
            index: PosIndex::new(),
            marker: core::marker::PhantomData,
        };
        proof {
            r.lemma_represents(Map::empty());
        }
        r
    }

    /// An empty table with room for `capacity` records.
    pub fn with_capacity(capacity: usize) -> (r: Self)
        requires
            capacity <= MAX_ENTRIES,
        ensures
            r.wf(),
            r@ == Map::<Ident, I>::empty(),
    {
        let r = TypeMap {
            records: Vec::with_capacity(capacity),
            index: PosIndex::with_capacity(capacity),
            marker: core::marker::PhantomData,
        };
        proof {
            r.lemma_represents(Map::empty());
        }
        r
    }

    /// The number of records the table can hold before it grows.
    pub fn capacity(&self) -> (r: usize)
        requires
            self.wf(),
        ensures
            r >= self@.len(),
    {
        self.index.capacity()
    }

    /// The number of records.
    pub fn len(&self) -> (r: usize)
        requires
            self.wf(),
        ensures
            r == self@.len(),
    {
        self.records.len()
    }

    /// Whether the table holds no record.
    pub fn is_empty(&self) -> (r: bool)
        requires
            self.wf(),
        ensures
            r == (self@.len() == 0),
    {
        self.records.len() == 0
    }

    /// Remove every record.
    pub fn clear(&mut self)
        requires
            old(self).wf(),
        ensures
            final(self).wf(),
            final(self)@ == Map::<Ident, I>::empty(),
    {
        self.records.clear();
        self.index.clear();
        proof {
            self.lemma_represents(Map::empty());
        }
    }

    /// Make room for at least `additional` more records; the records stay.
    pub fn reserve(&mut self, additional: usize)
        requires
            old(self).wf(),
            old(self)@.len() + additional <= MAX_ENTRIES,
        ensures
            final(self).wf(),
            final(self)@ == old(self)@,
    {
        self.index.reserve(additional);
        proof {
            self.lemma_same_shape(old(self));
        }
    }

    /// Release unused room; the records stay.
    pub fn shrink_to_fit(&mut self)
        requires
            old(self).wf(),
        ensures
            final(self).wf(),
            final(self)@ == old(self)@,
    {
        self.index.shrink_to_fit();
        proof {
            self.lemma_same_shape(old(self));
        }
    }

    /// The entry of the key `k` of the stored type `A`.
    pub fn get<A, Idx>(&self, k: &KeyAt<E, A>) -> (r: Option<&EntryAt<E, A>>) where
        E: EntryFamily<A>,
        I: CreateEntry<A, E, Idx>,
        requires
            self.wf(),
        ensures
            r matches Some(e) ==> self.lookup::<A, Idx>(*k) == Some(*e),
            r is None ==> self.lookup::<A, Idx>(*k) is None,
    {
        let hash = Self::hash_key::<A, Idx>(k);
        match self.find_pos::<A, Idx>(hash, k) {
            Option::Some(p) => {
                proof {
                    self.lemma_view_at(p as int);
                    I::lemma_recover(&self.records@[p as int].inner);
                }
                self.records[p].inner.downcast_ref()
            },
            Option::None => Option::None,
        }
    }

    /// Whether the table holds an entry for the key `k` of the stored type `A`.
    pub fn contains_key<A, Idx>(&self, k: &KeyAt<E, A>) -> (r: bool) where
        E: EntryFamily<A>,
        I: CreateEntry<A, E, Idx>,
        requires
            self.wf(),
        ensures
            r == self.lookup::<A, Idx>(*k) is Some,
    {
        self.get::<A, Idx>(k).is_some()
    }

    /// The entry of the default key of the stored type `A`.
    pub fn get_default<A, Idx>(&self) -> (r: Option<&EntryAt<E, A>>) where
        E: EntryFamily<A>,
        I: CreateEntry<A, E, Idx>,
        KeyAt<E, A>: DefaultKey,
        requires
            self.wf(),
        ensures
            r matches Some(e) ==> self.lookup::<A, Idx>(KeyAt::<E, A>::default_key_spec()) == Some(*e),
            r is None ==> self.lookup::<A, Idx>(KeyAt::<E, A>::default_key_spec()) is None,
    {
        let k = KeyAt::<E, A>::default_key();
        self.get::<A, Idx>(&k)
    }

    /// File `entry` under its key for the stored type `A`, replacing the whole entry already
    /// filed there, which is returned.
    pub fn insert<A, Idx>(&mut self, entry: EntryAt<E, A>) -> (r: Option<EntryAt<E, A>>) where
        E: EntryFamily<A>,
        I: CreateEntry<A, E, Idx>,
        requires
            old(self).wf(),
            old(self)@.len() < MAX_ENTRIES,
        ensures
            final(self).wf(),
            final(self)@ == old(self)@.insert(ident_of::<A, E, I, Idx>(entry.key()), I::inject(entry)),
            final(self).lookup::<A, Idx>(entry.key()) == Some(entry),
            r == old(self).lookup::<A, Idx>(entry.key()),
    {
        let ghost id = ident_of::<A, E, I, Idx>(entry.key());
        let hash = Self::hash_key::<A, Idx>(entry.split_ref().0);
        let found = self.find_pos::<A, Idx>(hash, entry.split_ref().0);
        proof {
            I::lemma_inject(entry);
        }
        match found {
            Option::Some(p) => {
                proof {
                    self.lemma_view_at(p as int);
                    I::lemma_recover(&self.records@[p as int].inner);
                }
                let mut rec = RawEntry { inner: I::from_entry(entry), hash };
                self.records.set_and_swap(p, &mut rec);
                proof {
                    let m = old(self)@.insert(id, I::inject(entry));
                    assert forall|i: int| 0 <= i < self.records@.len() implies #[trigger] self.ident_at(i)
                        == old(self).ident_at(i) by {
                    }
                    assert forall|i: int, j: int|
                        0 <= i < self.records@.len() && 0 <= j < self.records@.len() && i != j
                            implies #[trigger] self.ident_at(i) != #[trigger] self.ident_at(j) by {
                        assert(self.ident_at(i) == old(self).ident_at(i));
                        assert(self.ident_at(j) == old(self).ident_at(j));
                    }
                    assert forall|i: int| 0 <= i < self.records@.len() implies #[trigger] m.contains_key(
                        self.ident_at(i),
                    ) && m[self.ident_at(i)] == self.records@[i].inner by {
                        if i != p {
                            old(self).lemma_view_at(i);
                        }
                    }
                    assert forall|id2: Ident| #[trigger] m.contains_key(id2) implies self.has_ident(
                        id2,
                    ) by {
                        if id2 != id {
                            let i = old(self).pos_of(id2);
                            assert(old(self).ident_at(i) == id2);
                            assert(self.ident_at(i) == id2);
                        } else {
                            assert(self.ident_at(p as int) == id2);
                        }
                    }
                    self.lemma_represents(m);
                    assert(m.dom() =~= old(self)@.dom());
                    assert forall|x: (u64, usize)| #[trigger]
                        crate::index::slots(self.index).count(x) == if (x.1 as int) < self.records@.len()
                            && self.records@[x.1 as int].hash == x.0 {
                            1nat
                        } else {
                            0nat
                        } by {
                        assert(crate::index::slots(self.index).count(x) == crate::index::slots(old(self).index).count(x));
                    }
                }
                rec.inner.downcast()
            },
            Option::None => {
                self.push_new::<A, Idx>(entry);
                Option::None
            },
        }
    }

    /// Remove the entry of the key `k` of the stored type `A`, returning it.
    pub fn remove_entry<A, Idx>(&mut self, k: &KeyAt<E, A>) -> (r: Option<EntryAt<E, A>>) where
        E: EntryFamily<A>,
        I: CreateEntry<A, E, Idx>,
        requires
            old(self).wf(),
        ensures
            final(self).wf(),
            final(self)@ == old(self)@.remove(ident_of::<A, E, I, Idx>(*k)),
            r == old(self).lookup::<A, Idx>(*k),
    {
        match self.position::<A, Idx>(k) {
            Option::None => {
                proof {
                    assert(self.view() =~= old(self).view().remove(ident_of::<A, E, I, Idx>(*k)));
                }
                Option::None
            },
            Option::Some(p) => Option::Some(self.remove_at::<A, Idx>(p, Ghost(*k))),
        }
    }

    /// Whether position `p` holds the record of the key `k` of the stored type `A`.
    pub closed spec fn holds<A, Idx>(&self, p: usize, k: KeyAt<E, A>) -> bool where
        E: EntryFamily<A>,
        I: CreateEntry<A, E, Idx>,
     {
        (p as int) < self.records@.len() && self.ident_at(p as int) == ident_of::<A, E, I, Idx>(k)
    }

    /// The position of the record of the key `k` of the stored type `A`, if there is one.
    pub(crate) fn position<A, Idx>(&self, k: &KeyAt<E, A>) -> (r: Option<usize>) where
        E: EntryFamily<A>,
        I: CreateEntry<A, E, Idx>,
        requires
            self.wf(),
        ensures
            r matches Some(p) ==> self.holds::<A, Idx>(p, *k) && self.lookup::<A, Idx>(*k) is Some,
            r is None ==> !self@.contains_key(ident_of::<A, E, I, Idx>(*k)) && self.lookup::<A, Idx>(
                *k,
            ) is None,
    {
        let hash = Self::hash_key::<A, Idx>(k);
        let r = self.find_pos::<A, Idx>(hash, k);
        proof {
            if let Option::Some(p) = r {
                self.lemma_view_at(p as int);
                I::lemma_recover(&self.records@[p as int].inner);
            }
        }
        r
    }

    /// The entry at position `p`, which holds the key `k` of `A`.
    pub(crate) fn entry_at<A, Idx>(&self, p: usize, Ghost(k): Ghost<KeyAt<E, A>>) -> (r: &EntryAt<
        E,
        A,
    >) where E: EntryFamily<A>, I: CreateEntry<A, E, Idx>
        requires
            self.wf(),
            self.holds::<A, Idx>(p, k),
        ensures
            self.lookup::<A, Idx>(k) == Some(*r),
    {
        proof {
            self.lemma_view_at(p as int);
            I::lemma_recover(&self.records@[p as int].inner);
        }
        match self.records[p].inner.downcast_ref() {
            Option::Some(e) => e,
            Option::None => unreached(),
        }
    }

    /// Remove the record at position `p`, which holds the key `k` of `A`, and return its entry.
    pub(crate) fn remove_at<A, Idx>(&mut self, p: usize, Ghost(k): Ghost<KeyAt<E, A>>) -> (r: EntryAt<
        E,
        A,
    >) where E: EntryFamily<A>, I: CreateEntry<A, E, Idx>
        requires
            old(self).wf(),
            old(self).holds::<A, Idx>(p, k),
        ensures
            final(self).wf(),
            final(self)@ == old(self)@.remove(ident_of::<A, E, I, Idx>(k)),
            old(self).lookup::<A, Idx>(k) == Some(r),
    {
        let ghost id = ident_of::<A, E, I, Idx>(k);
        proof {
            self.lemma_view_at(p as int);
            I::lemma_recover(&self.records@[p as int].inner);
        }
        let hash = self.records[p].hash;
        let last = self.records.len() - 1;
        let hash_last = self.records[last].hash;
        self.index.remove((hash, p));
        if p != last {
            self.index.remove((hash_last, last));
            self.index.insert((hash_last, p));
        }
        let rec = self.records.swap_remove(p);
        proof {
            self.lemma_after_swap_remove(old(self), p as int, id);
        }
        match rec.inner.downcast() {
            Option::Some(e) => e,
            Option::None => unreached(),
        }
    }

    /// File the entry `e`, whose key has no record yet, at a new position, which is returned.
    pub(crate) fn push_new<A, Idx>(&mut self, e: EntryAt<E, A>) -> (p: usize) where
        E: EntryFamily<A>,
        I: CreateEntry<A, E, Idx>,
        requires
            old(self).wf(),
            old(self)@.len() < MAX_ENTRIES,
            !old(self)@.contains_key(ident_of::<A, E, I, Idx>(e.key())),
        ensures
            final(self).wf(),
            final(self).holds::<A, Idx>(p, e.key()),
            final(self)@ == old(self)@.insert(ident_of::<A, E, I, Idx>(e.key()), I::inject(e)),
    {
        let ghost id = ident_of::<A, E, I, Idx>(e.key());
        let hash = Self::hash_key::<A, Idx>(e.split_ref().0);
        proof {
            I::lemma_inject(e);
        }
        let n = self.records.len();
        self.records.push(RawEntry { inner: I::from_entry(e), hash });
        self.index.insert((hash, n));
        proof {
            let m = old(self)@.insert(id, I::inject(e));
            assert forall|i: int| 0 <= i < self.records@.len() implies #[trigger] m.contains_key(
                self.ident_at(i),
            ) && m[self.ident_at(i)] == self.records@[i].inner by {
                if i < n {
                    old(self).lemma_view_at(i);
                }
            }
            assert forall|id2: Ident| #[trigger] m.contains_key(id2) implies self.has_ident(
                id2,
            ) by {
                if id2 != id {
                    let i = old(self).pos_of(id2);
                    assert(old(self).ident_at(i) == id2);
                    assert(self.ident_at(i) == id2);
                } else {
                    assert(self.ident_at(n as int) == id2);
                }
            }
            self.lemma_represents(m);
            assert forall|i: int, j: int|
                0 <= i < self.records@.len() && 0 <= j < self.records@.len() && i != j
                    implies #[trigger] self.ident_at(i) != #[trigger] self.ident_at(j) by {
                if i == n {
                    assert(self.records@[j] == old(self).records@[j]);
                    assert(self.ident_at(i) == id);
                    old(self).lemma_view_at(j);
                    assert(!old(self).view().contains_key(id));
                } else if j == n {
                    assert(self.records@[i] == old(self).records@[i]);
                    assert(self.ident_at(j) == id);
                    old(self).lemma_view_at(i);
                    assert(!old(self).view().contains_key(id));
                } else {
                    assert(self.records@[i] == old(self).records@[i]);
                    assert(self.records@[j] == old(self).records@[j]);
                    assert(old(self).ident_at(i) != old(self).ident_at(j));
                }
            }
            assert forall|x: (u64, usize)| #[trigger]
                crate::index::slots(self.index).count(x) == if (x.1 as int) < self.records@.len()
                    && self.records@[x.1 as int].hash == x.0 {
                    1nat
                } else {
                    0nat
                } by {
                if x != (hash, n) {
                    assert(crate::index::slots(self.index).count(x) == crate::index::slots(old(self).index).count(x));
                }
            }
        }
        n
    }

    proof fn lemma_after_swap_remove(&self, before: &Self, p: int, id: Ident)
        requires
            before.wf(),
            0 <= p < before.records@.len(),
            before.ident_at(p) == id,
            self.records@ == before.records@.update(p, before.records@.last()).drop_last(),
            crate::index::slots(self.index) == if p == before.records@.len() - 1 {
                crate::index::slots(before.index).remove((before.records@[p].hash, p as usize))
            } else {
                crate::index::slots(before.index).remove((before.records@[p].hash, p as usize)).remove(
                    (before.records@.last().hash, (before.records@.len() - 1) as usize),
                ).insert((before.records@.last().hash, p as usize))
            },
        ensures
            self.wf(),
            self.view() == before.view().remove(id),
    {
        let n = before.records@.len();
        let last = n - 1;
        before.lemma_view_at(p);
        before.lemma_view_at(last);
        assert forall|i: int| 0 <= i < self.records@.len() implies #[trigger] self.ident_at(i)
            == before.ident_at(if i == p {
            last
        } else {
            i
        }) by {
        }
        let m = before.view().remove(id);
        assert forall|i: int| 0 <= i < self.records@.len() implies #[trigger] m.contains_key(
            self.ident_at(i),
        ) && m[self.ident_at(i)] == self.records@[i].inner by {
            let j = if i == p {
                last
            } else {
                i
            };
            before.lemma_view_at(j);
            assert(self.ident_at(i) == before.ident_at(j));
            assert(before.ident_at(j) != before.ident_at(p));
        }
        assert forall|id2: Ident| #[trigger] m.contains_key(id2) implies self.has_ident(id2) by {
            let j = before.pos_of(id2);
            assert(before.ident_at(j) == id2);
            if j == last {
                assert(self.ident_at(p) == id2);
            } else {
                assert(self.ident_at(j) == id2);
            }
        }
        self.lemma_represents(m);
        assert forall|i: int, j: int|
            0 <= i < self.records@.len() && 0 <= j < self.records@.len() && i != j
                implies #[trigger] self.ident_at(i) != #[trigger] self.ident_at(j) by {
            let i2 = if i == p {
                last
            } else {
                i
            };
            let j2 = if j == p {
                last
            } else {
                j
            };
            assert(self.ident_at(i) == before.ident_at(i2));
            assert(self.ident_at(j) == before.ident_at(j2));
            assert(before.ident_at(i2) != before.ident_at(j2));
        }
        assert forall|i: int| 0 <= i < self.records@.len() implies #[trigger] self.records@[i].hash
            == ident_hash(self.ident_at(i)) by {
            let i2 = if i == p {
                last
            } else {
                i
            };
            assert(self.records@[i] == before.records@[i2]);
        }
        let hp = before.records@[p].hash;
        let hl = before.records@.last().hash;
        assert forall|x: (u64, usize)| #[trigger]
            crate::index::slots(self.index).count(x) == if (x.1 as int) < self.records@.len()
                && self.records@[x.1 as int].hash == x.0 {
                1nat
            } else {
                0nat
            } by {
            assert(crate::index::slots(before.index).count(x) == if (x.1 as int) < n && before.records@[x.1 as int].hash
                == x.0 {
                1nat
            } else {
                0nat
            });
            assert(crate::index::slots(before.index).count((hp, p as usize)) == 1);
            if p != last {
                assert(crate::index::slots(before.index).count((hl, last as usize)) == 1);
            }
        }
    }

    proof fn lemma_after_update(&self, before: &Self, p: int)
        requires
            before.wf(),
            0 <= p < before.records@.len(),
            self.records@ == before.records@.update(p, self.records@[p]),
            self.records@[p].hash == before.records@[p].hash,
            self.ident_at(p) == before.ident_at(p),
            crate::index::slots(self.index) == crate::index::slots(before.index),
        ensures
            self.wf(),
            self.view() == before.view().insert(before.ident_at(p), self.records@[p].inner),
    {
        let id = before.ident_at(p);
        let m = before.view().insert(id, self.records@[p].inner);
        assert forall|i: int| 0 <= i < self.records@.len() implies #[trigger] self.ident_at(i)
            == before.ident_at(i) by {
        }
        assert forall|i: int| 0 <= i < self.records@.len() implies #[trigger] m.contains_key(
            self.ident_at(i),
        ) && m[self.ident_at(i)] == self.records@[i].inner by {
            before.lemma_view_at(i);
        }
        assert forall|id2: Ident| #[trigger] m.contains_key(id2) implies self.has_ident(id2) by {
            if id2 != id {
                let j = before.pos_of(id2);
                assert(before.ident_at(j) == id2);
                assert(self.ident_at(j) == id2);
            } else {
                assert(self.ident_at(p) == id2);
            }
        }
        self.lemma_represents(m);
        before.lemma_view_at(p);
        assert(m.dom() =~= before.view().dom());
        assert forall|i: int, j: int|
            0 <= i < self.records@.len() && 0 <= j < self.records@.len() && i != j
                implies #[trigger] self.ident_at(i) != #[trigger] self.ident_at(j) by {
            assert(self.ident_at(i) == before.ident_at(i));
            assert(self.ident_at(j) == before.ident_at(j));
        }
        assert forall|x: (u64, usize)| #[trigger]
            crate::index::slots(self.index).count(x) == if (x.1 as int) < self.records@.len()
                && self.records@[x.1 as int].hash == x.0 {
                1nat
            } else {
                0nat
            } by {
            assert(crate::index::slots(before.index).count(x) == crate::index::slots(self.index).count(x));
        }
    }

    /// The value of the key `k` of the stored type `A`, mutably; its key stays.
    pub fn get_mut<A, Idx>(&mut self, k: &KeyAt<E, A>) -> (r: Option<&mut ValueAt<E, A>>) where
        E: EntryFamily<A>,
        I: CreateEntry<A, E, Idx>,
        requires
            old(self).wf(),
        ensures
            final(self).wf(),
            r is None ==> old(self).lookup::<A, Idx>(*k) is None && final(self)@ == old(self)@,
            r matches Some(v) ==> {
                &&& old(self).lookup::<A, Idx>(*k) matches Some(e) && *v == e.value()
                &&& final(self).lookup::<A, Idx>(*k) matches Some(e2) && e2.key() == *k && e2.value()
                    == *final(v)
                &&& final(self)@ == old(self)@.insert(
                    ident_of::<A, E, I, Idx>(*k),
                    final(self)@[ident_of::<A, E, I, Idx>(*k)],
                )
            },
    {
        match self.position::<A, Idx>(k) {
            Option::None => Option::None,
            Option::Some(p) => Option::Some(self.value_mut_at::<A, Idx>(p, Ghost(*k))),
        }
    }

    /// The value at position `p`, which holds the key `k` of `A`, mutably; its key stays.
    pub(crate) fn value_mut_at<A, Idx>(&mut self, p: usize, Ghost(k): Ghost<KeyAt<E, A>>) -> (v:
        &mut ValueAt<E, A>) where E: EntryFamily<A>, I: CreateEntry<A, E, Idx>
        requires
            old(self).wf(),
            old(self).holds::<A, Idx>(p, k),
        ensures
            final(self).wf(),
            final(self).holds::<A, Idx>(p, k),
            old(self).lookup::<A, Idx>(k) matches Some(e) && *v == e.value(),
            final(self).lookup::<A, Idx>(k) matches Some(e2) && e2.key() == k && e2.value()
                == *final(v),
            final(self)@ == old(self)@.insert(
                ident_of::<A, E, I, Idx>(k),
                final(self)@[ident_of::<A, E, I, Idx>(k)],
            ),
    {
        proof {
            self.lemma_view_at(p as int);
            I::lemma_recover(&self.records@[p as int].inner);
        }
        let ghost final_self = *final(self);
        let rec = &mut self.records[p];
        let ghost final_rec = *final(rec);
        match rec.inner.downcast_mut() {
            Option::Some(e) => {
                let ghost final_e = *final(e);
                let ghost old_e = *e;
                let (_, v) = e.split_mut();
                proof {
                    assert(final_self.records@ == old(self).records@.update(p as int, final_rec));
                    assert(final_rec.inner == I::inject(final_e));
                    assert(final_e.key() == old_e.key());
                    I::lemma_inject(old_e);
                    I::lemma_inject(final_e);
                    KeyAt::<E, A>::lemma_key_id_injective(&final_e.key(), &k);
                    final_self.lemma_after_update(old(self), p as int);
                    I::lemma_recover(&final_self.records@[p as int].inner);
                }
                v
            },
            Option::None => unreached(),
        }
    }
}

impl<E, I: HashableAny> TypeMap<E, I> {
    /// A copy of the table, record by record.
    pub fn duplicate(&self) -> (r: Self) where I: CloneableHashableAny
        ensures
            self.wf() ==> r.wf() && r@ == self@,
    {
        let mut records: Vec<RawEntry<I>> = Vec::new();
        let n = self.records.len();
        for i in 0..n
            invariant
                n == self.records@.len(),
                records@.len() == i,
                forall|j: int| 0 <= j < i ==> #[trigger] records@[j] == self.records@[j],
        {
            records.push(RawEntry { inner: self.records[i].inner.clone_any(), hash: self.records[i].hash });
        }
        let r = TypeMap { records, index: self.index.duplicate(), marker: core::marker::PhantomData };
        proof {
            assert(r.records@ =~= self.records@);
            if self.wf() {
                r.lemma_same_shape(self);
            }
        }
        r
    }

    /// Whether every record of this table has an equal record under the same identity in
    /// `other`, and both hold as many records.
    pub open spec fn eq_model(&self, other: &Self) -> bool where I: DynPartialEq {
        &&& self@.len() == other@.len()
        &&& forall|id: Ident| #[trigger]
            self@.contains_key(id) ==> other@.contains_key(id) && self@[id].eq_dyn_spec(
                &other@[id],
            )
    }

    /// Compare two tables: each record of this one is looked up in `other` under its own hash
    /// and compared there.
    pub fn equals(&self, other: &Self) -> (r: bool) where I: DynPartialEq
        requires
            self.wf(),
            other.wf(),
        ensures
            r == self.eq_model(other),
    {
        if self.records.len() != other.records.len() {
            return false;
        }
        let n = self.records.len();
        for i in 0..n
            invariant
                n == self.records@.len(),
                self.wf(),
                other.wf(),
                self@.len() == other@.len(),
                forall|j: int|
                    0 <= j < i ==> #[trigger] other@.contains_key(self.ident_at(j))
                        && self.records@[j].inner.eq_dyn_spec(&other@[self.ident_at(j)]),
        {
            let rec = &self.records[i].inner;
            let others = &other.records;
            let found = other.index.find(
                self.records[i].hash,
                (|e: &(u64, usize)| -> (b: bool)
                    ensures
                        b == Self::eq_at(others@, e.1, *rec),
                    {
                        if e.1 < others.len() {
                            rec.eq_dyn(&others[e.1].inner)
                        } else {
                            false
                        }
                    }),
            );
            let ghost id = self.ident_at(i as int);
            proof {
                self.lemma_view_at(i as int);
            }
            match found {
                Option::Some(x) => {
                    proof {
                        assert(Self::eq_at(others@, x.1, *rec));
                        I::lemma_eq_dyn_ident(rec, &other.records@[x.1 as int].inner);
                        other.lemma_view_at(x.1 as int);
                        assert(other.ident_at(x.1 as int) == id);
                        assert(other@.contains_key(id));
                        assert(other@[id] == other.records@[x.1 as int].inner);
                        assert(self.records@[i as int].inner.eq_dyn_spec(&other@[id]));
                    }
                },
                Option::None => {
                    proof {
                        if other@.contains_key(id) && rec.eq_dyn_spec(&other@[id]) {
                            let q = other.pos_of(id);
                            assert(other.ident_at(q) == id);
                            other.lemma_view_at(q);
                            assert(other.records@[q].hash == ident_hash(id));
                            assert(self.records@[i as int].hash == ident_hash(id));
                            let x = (self.records@[i as int].hash, q as usize);
                            assert(crate::index::slots(other.index).count(x) == 1);
                            assert(crate::index::slots(other.index).contains(x));
                            assert(Self::eq_at(others@, x.1, *rec));
                            assert(false);
                        }
                        assert(self@.contains_key(id));
                        assert(!self.eq_model(other));
                    }
                    return false;
                },
            }
        }
        proof {
            assert forall|id: Ident| #[trigger] self@.contains_key(id) implies other@.contains_key(
                id,
            ) && self@[id].eq_dyn_spec(&other@[id]) by {
                let j = self.pos_of(id);
                assert(self.ident_at(j) == id);
                self.lemma_view_at(j);
                assert(other@.contains_key(self.ident_at(j)) && self.records@[j].inner.eq_dyn_spec(
                    &other@[self.ident_at(j)],
                ));
            }
        }
        true
    }

    /// Whether the record at position `p` of `records` is equal to `rec`.
    closed spec fn eq_at(records: Seq<RawEntry<I>>, p: usize, rec: I) -> bool where
        I: DynPartialEq,
     {
        (p as int) < records.len() && rec.eq_dyn_spec(&records[p as int].inner)
    }
}

impl<E, I: CloneableHashableAny> Clone for TypeMap<E, I> {
    fn clone(&self) -> (r: Self)
        ensures
            self.wf() ==> r.wf() && r@ == self@,
    {
        self.duplicate()
    }
}

impl<E, I: HashableAny> Default for TypeMap<E, I> {
    fn default() -> (r: Self)
        ensures
            r.wf(),
            r@ == Map::<Ident, I>::empty(),
    {
        Self::new()
    }
}

} // verus!
