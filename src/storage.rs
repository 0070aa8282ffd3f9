//! Storage for tables that hold several stored types.
//!
//! `Sum<InnerEntry<E, A>, Sum<InnerEntry<E, B>, Nil>>` holds the records of `A` and of `B`.
//! A record in the `n`-th position of such a chain carries the tag `n`, so the stored types of
//! one chain never share a tag.
use crate::any::{
    CreateEntry, DynEq, DynPartialEq, EntryAt, EntryFamily, HashableAny, Ident,
};
use crate::map::InnerEntry;
use crate::variants::CloneableHashableAny;
use vstd::prelude::*;

verus! {

/// Selects the head of a [`Sum`].
pub struct Here;

/// Selects, within the tail of a [`Sum`], what `Idx` selects.
pub struct There<Idx> {
    marker: core::marker::PhantomData<Idx>,
}

/// A record of the first kind, `H`, or one of the kinds that `T` holds.
pub enum Sum<H, T> {
    /// A record of the first kind.
    Head(H),
    /// A record of a later kind.
    Tail(T),
}

/// The end of a chain of [`Sum`]s: it holds the records of no stored type.
pub struct Nil;

impl HashableAny for Nil {
    open spec fn ident(&self) -> Ident {
        (0, 0)
    }
}

impl CloneableHashableAny for Nil {
    fn clone_any(&self) -> (r: Self) {
        Nil
    }
}

impl DynPartialEq for Nil {
    open spec fn eq_dyn_spec(&self, other: &Self) -> bool {
        true
    }

    proof fn lemma_eq_dyn_ident(a: &Self, b: &Self) {
    }

    fn eq_dyn(&self, other: &Self) -> (r: bool) {
        true
    }
}

impl DynEq for Nil {
    proof fn lemma_eq_dyn_reflexive(a: &Self) {
    }
}

impl<H: HashableAny, T: HashableAny> HashableAny for Sum<H, T> {
    open spec fn ident(&self) -> Ident {
        match self {
            Sum::Head(h) => (0, h.ident().1),
            Sum::Tail(t) => (t.ident().0 + 1, t.ident().1),
        }
    }
}

impl<A, E: EntryFamily<A>, T: HashableAny> CreateEntry<A, E, Here> for Sum<InnerEntry<E, A>, T> {
    open spec fn tag() -> nat {
        0
    }

    open spec fn inject(e: EntryAt<E, A>) -> Self {
        Sum::Head(<InnerEntry<E, A> as CreateEntry<A, E, Here>>::inject(e))
    }

    open spec fn recover(&self) -> Option<EntryAt<E, A>> {
        match self {
            Sum::Head(h) => h.recover(),
            Sum::Tail(_) => None,
        }
    }

    proof fn lemma_inject(e: EntryAt<E, A>) {
        <InnerEntry<E, A> as CreateEntry<A, E, Here>>::lemma_inject(e);
    }

    proof fn lemma_recover(r: &Self) {
        if let Sum::Head(h) = r {
            <InnerEntry<E, A> as CreateEntry<A, E, Here>>::lemma_recover(h);
        }
    }

    fn type_tag() -> (r: u64) {
        0
    }

    fn from_entry(e: EntryAt<E, A>) -> (r: Self) {
        Sum::Head(InnerEntry::from_entry(e))
    }

    fn downcast_ref(&self) -> (r: Option<&EntryAt<E, A>>) {
        match self {
            Sum::Head(h) => h.downcast_ref(),
            Sum::Tail(_) => Option::None,
        }
    }

    fn downcast_mut(&mut self) -> (r: Option<&mut EntryAt<E, A>>) {
        match self {
            Sum::Head(h) => h.downcast_mut(),
            Sum::Tail(_) => Option::None,
        }
    }

    fn downcast(self) -> (r: Option<EntryAt<E, A>>) {
        match self {
            Sum::Head(h) => h.downcast(),
            Sum::Tail(_) => Option::None,
        }
    }
}

impl<A, E: EntryFamily<A>, H: HashableAny, T: CreateEntry<A, E, Idx>, Idx> CreateEntry<
    A,
    E,
    There<Idx>,
> for Sum<H, T> {
    open spec fn tag() -> nat {
        T::tag() + 1
    }

    open spec fn inject(e: EntryAt<E, A>) -> Self {
        Sum::Tail(T::inject(e))
    }

    open spec fn recover(&self) -> Option<EntryAt<E, A>> {
        match self {
            Sum::Head(_) => None,
            Sum::Tail(t) => t.recover(),
        }
    }

    proof fn lemma_inject(e: EntryAt<E, A>) {
        T::lemma_inject(e);
    }

    proof fn lemma_recover(r: &Self) {
        if let Sum::Tail(t) = r {
            T::lemma_recover(t);
        }
    }

    fn type_tag() -> (r: u64) {
        let t = T::type_tag();
        if t < 0xFFFF_FFFF_FFFF_FFFF {
            t + 1
        } else {
            t
        }
    }

    fn from_entry(e: EntryAt<E, A>) -> (r: Self) {
        Sum::Tail(T::from_entry(e))
    }

    fn downcast_ref(&self) -> (r: Option<&EntryAt<E, A>>) {
        match self {
            Sum::Head(_) => Option::None,
            Sum::Tail(t) => t.downcast_ref(),
        }
    }

    fn downcast_mut(&mut self) -> (r: Option<&mut EntryAt<E, A>>) {
        match self {
            Sum::Head(_) => Option::None,
            Sum::Tail(t) => t.downcast_mut(),
        }
    }

    fn downcast(self) -> (r: Option<EntryAt<E, A>>) {
        match self {
            Sum::Head(_) => Option::None,
            Sum::Tail(t) => t.downcast(),
        }
    }
}

impl<H: CloneableHashableAny, T: CloneableHashableAny> CloneableHashableAny for Sum<H, T> {
    fn clone_any(&self) -> (r: Self) {
        match self {
            Sum::Head(h) => Sum::Head(h.clone_any()),
            Sum::Tail(t) => Sum::Tail(t.clone_any()),
        }
    }
}

impl<H: DynPartialEq, T: DynPartialEq> DynPartialEq for Sum<H, T> {
    open spec fn eq_dyn_spec(&self, other: &Self) -> bool {
        match (self, other) {
            (Sum::Head(a), Sum::Head(b)) => a.eq_dyn_spec(b),
            (Sum::Tail(a), Sum::Tail(b)) => a.eq_dyn_spec(b),
            _ => false,
        }
    }

    proof fn lemma_eq_dyn_ident(a: &Self, b: &Self) {
        match (a, b) {
            (Sum::Head(x), Sum::Head(y)) => H::lemma_eq_dyn_ident(x, y),
            (Sum::Tail(x), Sum::Tail(y)) => T::lemma_eq_dyn_ident(x, y),
            _ => {},
        }
    }

    fn eq_dyn(&self, other: &Self) -> (r: bool) {
        match (self, other) {
            (Sum::Head(a), Sum::Head(b)) => a.eq_dyn(b),
            (Sum::Tail(a), Sum::Tail(b)) => a.eq_dyn(b),
            _ => false,
        }
    }
}

impl<H: DynEq, T: DynEq> DynEq for Sum<H, T> {
    proof fn lemma_eq_dyn_reflexive(a: &Self) {
        match a {
            Sum::Head(x) => H::lemma_eq_dyn_reflexive(x),
            Sum::Tail(x) => T::lemma_eq_dyn_reflexive(x),
        }
    }
}

} // verus!
