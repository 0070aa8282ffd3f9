//! Keys, entry shapes and the contracts of erased records.
//!
//! A record stored in a [`crate::TypeMap`] is a value of the map's storage type `I`. Each record
//! carries an identity: the tag of the stored type it was created for, and the id of its key.
//! Recovering a typed entry from a record is a checked operation whose behaviour is stated
//! by the storage type's [`CreateEntry`] contract.
use vstd::prelude::*;

verus! {

/// Reduces a key id to the 64 bits that feed the table's hash.
pub open spec fn key_code(id: int) -> u64 {
    id as u64
}

/// Reduces a type tag to the 64 bits that feed the table's hash: the tag itself, or the
/// largest `u64` for a tag that does not fit.
pub open spec fn tag_code(t: nat) -> u64 {
    if t < 0x1_0000_0000_0000_0000 {
        t as u64
    } else {
        0xFFFF_FFFF_FFFF_FFFF
    }
}

/// Keys of entries: comparable for equality, hashable, and identified by an integer id.
///
/// The id is injective: two keys with the same id are equal.
pub trait MapKey: Sized {
    /// The integer that identifies this key among all keys of its type.
    spec fn key_id(&self) -> int;

    /// Equal ids mean equal keys.
    proof fn lemma_key_id_injective(a: &Self, b: &Self)
        ensures
            a.key_id() == b.key_id() ==> *a == *b,
    ;

    /// Equality of keys.
    fn key_eq(&self, other: &Self) -> (r: bool)
        ensures
            r == (*self == *other),
    ;

    /// The hash of this key.
    fn key_hash(&self) -> (r: u64)
        ensures
            r == key_code(self.key_id()),
    ;
}

/// Keys that have a distinguished default value.
pub trait DefaultKey: MapKey {
    /// The default key.
    spec fn default_key_spec() -> Self;

    /// Build the default key.
    fn default_key() -> (r: Self)
        ensures
            r == Self::default_key_spec(),
    ;
}

impl MapKey for () {
    open spec fn key_id(&self) -> int {
        0
    }

    proof fn lemma_key_id_injective(a: &(), b: &()) {
    }

    fn key_eq(&self, other: &()) -> (r: bool) {
        true
    }

    fn key_hash(&self) -> (r: u64) {
        0
    }
}

impl DefaultKey for () {
    open spec fn default_key_spec() -> () {
        ()
    }

    fn default_key() -> (r: ()) {
        ()
    }
}

impl MapKey for u8 {
    open spec fn key_id(&self) -> int {
        *self as int
    }

    proof fn lemma_key_id_injective(a: &u8, b: &u8) {
    }

    fn key_eq(&self, other: &u8) -> (r: bool) {
        *self == *other
    }

    fn key_hash(&self) -> (r: u64) {
        *self as u64
    }
}

impl DefaultKey for u8 {
    open spec fn default_key_spec() -> u8 {
        0
    }

    fn default_key() -> (r: u8) {
        0
    }
}

impl MapKey for u16 {
    open spec fn key_id(&self) -> int {
        *self as int
    }

    proof fn lemma_key_id_injective(a: &u16, b: &u16) {
    }

    fn key_eq(&self, other: &u16) -> (r: bool) {
        *self == *other
    }

    fn key_hash(&self) -> (r: u64) {
        *self as u64
    }
}

impl DefaultKey for u16 {
    open spec fn default_key_spec() -> u16 {
        0
    }

    fn default_key() -> (r: u16) {
        0
    }
}

impl MapKey for u32 {
    open spec fn key_id(&self) -> int {
        *self as int
    }

    proof fn lemma_key_id_injective(a: &u32, b: &u32) {
    }

    fn key_eq(&self, other: &u32) -> (r: bool) {
        *self == *other
    }

    fn key_hash(&self) -> (r: u64) {
        *self as u64
    }
}

impl DefaultKey for u32 {
    open spec fn default_key_spec() -> u32 {
        0
    }

    fn default_key() -> (r: u32) {
        0
    }
}

impl MapKey for u64 {
    open spec fn key_id(&self) -> int {
        *self as int
    }

    proof fn lemma_key_id_injective(a: &u64, b: &u64) {
    }

    fn key_eq(&self, other: &u64) -> (r: bool) {
        *self == *other
    }

    fn key_hash(&self) -> (r: u64) {
        *self
    }
}

impl DefaultKey for u64 {
    open spec fn default_key_spec() -> u64 {
        0
    }

    fn default_key() -> (r: u64) {
        0
    }
}

impl MapKey for usize {
    open spec fn key_id(&self) -> int {
        *self as int
    }

    proof fn lemma_key_id_injective(a: &usize, b: &usize) {
    }

    fn key_eq(&self, other: &usize) -> (r: bool) {
        *self == *other
    }

    fn key_hash(&self) -> (r: u64) {
        *self as u64
    }
}

impl DefaultKey for usize {
    open spec fn default_key_spec() -> usize {
        0
    }

    fn default_key() -> (r: usize) {
        0
    }
}

/// An entry shape: a value that splits into a key and a value.
pub trait HashEntry: Sized {
    /// The key part of the entry.
    type Key: MapKey + 'static;

    /// The value part of the entry.
    type Value: 'static;

    /// The key of the entry.
    spec fn key(&self) -> Self::Key;

    /// The value of the entry.
    spec fn value(&self) -> Self::Value;

    /// An entry is determined by its key and its value.
    proof fn lemma_split_determines(a: &Self, b: &Self)
        ensures
            a.key() == b.key() && a.value() == b.value() ==> *a == *b,
    ;

    /// Split the entry into key and value.
    fn split_ref(&self) -> (r: (&Self::Key, &Self::Value))
        ensures
            *r.0 == self.key(),
            *r.1 == self.value(),
    ;

    /// Split the entry into key and mutable value; the key cannot be changed through it.
    fn split_mut(&mut self) -> (r: (&Self::Key, &mut Self::Value))
        ensures
            *r.0 == old(self).key(),
            *r.1 == old(self).value(),
            final(self).key() == old(self).key(),
            final(self).value() == *final(r.1),
    ;
}

/// A family of entry shapes: for each stored type `A`, the shape of its entries.
pub trait EntryFamily<A> {
    /// The entry shape for the stored type `A`.
    type Result: HashEntry + 'static;
}

/// The entry shape of the family `E` at the stored type `A`.
pub type EntryAt<E, A> = <E as EntryFamily<A>>::Result;

/// The key part of the entry shape of `E` at `A`.
pub type KeyAt<E, A> = <<E as EntryFamily<A>>::Result as HashEntry>::Key;

/// The value part of the entry shape of `E` at `A`.
pub type ValueAt<E, A> = <<E as EntryFamily<A>>::Result as HashEntry>::Value;

/// The identity of an erased record: the tag of its stored type and the id of its key.
pub type Ident = (nat, int);

/// Erased records: every record has an identity.
pub trait HashableAny: Sized {
    /// The tag of the stored type and the key id of this record.
    spec fn ident(&self) -> Ident;
}

/// Building erased records from the entries of the stored type `A` in the family `E`, and
/// recovering those entries.
///
/// Records built for `A` carry the tag `tag()`; a record is recovered as an entry of `A`
/// exactly when it carries that tag. `Idx` tells apart the ways in which one storage type
/// can hold entries of `A`; it is inferred at each call.
pub trait CreateEntry<A, E: EntryFamily<A>, Idx>: HashableAny {
    /// The tag of the stored type `A` in the family `E`.
    spec fn tag() -> nat;

    /// The record built from an entry.
    spec fn inject(e: EntryAt<E, A>) -> Self;

    /// The entry held by a record, when the record was built for `A`.
    spec fn recover(&self) -> Option<EntryAt<E, A>>;

    /// A record built from an entry gives it back, under that entry's identity.
    proof fn lemma_inject(e: EntryAt<E, A>)
        ensures
            Self::inject(e).recover() == Some(e),
            Self::inject(e).ident() == (Self::tag(), e.key().key_id()),
    ;

    /// A record is recovered as an entry of `A` exactly when it carries the tag of `A`,
    /// and then it is the record built from that entry.
    proof fn lemma_recover(r: &Self)
        ensures
            r.recover() is Some <==> r.ident().0 == Self::tag(),
            r.recover() matches Some(e) ==> *r == Self::inject(e),
    ;

    /// The hash code of the tag of `A`.
    fn type_tag() -> (r: u64)
        ensures
            r == tag_code(Self::tag()),
    ;

    /// Build the record for an entry.
    fn from_entry(e: EntryAt<E, A>) -> (r: Self)
        ensures
            r == Self::inject(e),
    ;

    /// Recover the entry by reference.
    fn downcast_ref(&self) -> (r: Option<&EntryAt<E, A>>)
        ensures
            r matches Some(e) ==> self.recover() == Some(*e),
            r is None ==> self.recover() is None,
    ;

    /// Recover the entry by mutable reference.
    fn downcast_mut(&mut self) -> (r: Option<&mut EntryAt<E, A>>)
        ensures
            r matches Some(e) ==> old(self).recover() == Some(*e) && *final(self)
                == Self::inject(*final(e)),
            r is None ==> old(self).recover() is None && *final(self) == *old(self),
    ;

    /// Recover the entry by value.
    fn downcast(self) -> (r: Option<EntryAt<E, A>>)
        ensures
            r == self.recover(),
    ;
}

/// Equality of erased records: records for different stored types are never equal.
pub trait DynPartialEq: HashableAny {
    /// Whether two records are equal.
    spec fn eq_dyn_spec(&self, other: &Self) -> bool;

    /// Equal records have the same identity.
    proof fn lemma_eq_dyn_ident(a: &Self, b: &Self)
        ensures
            a.eq_dyn_spec(b) ==> a.ident() == b.ident(),
    ;

    /// Compare two records.
    fn eq_dyn(&self, other: &Self) -> (r: bool)
        ensures
            r == self.eq_dyn_spec(other),
    ;

    /// Compare two records for inequality.
    fn ne_dyn(&self, other: &Self) -> (r: bool)
        ensures
            r == !self.eq_dyn_spec(other),
    {
        !self.eq_dyn(other)
    }
}

/// Equality of erased records that is reflexive.
pub trait DynEq: DynPartialEq {
    /// Every record equals itself.
    proof fn lemma_eq_dyn_reflexive(a: &Self)
        ensures
            a.eq_dyn_spec(a),
    ;
}

/// Conversion of a value into a box of the storage type `B`.
pub trait IntoBox<B>: Sized {
    /// The stored form of a value.
    spec fn boxed(self) -> B;

    /// Convert self into its boxed form.
    fn into_box(self) -> (r: Box<B>)
        ensures
            *r == self.boxed(),
    ;
}

impl<T> IntoBox<T> for T {
    open spec fn boxed(self) -> T {
        self
    }

    fn into_box(self) -> (r: Box<T>) {
        Box::new(self)
    }
}

} // verus!
