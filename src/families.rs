//! Ready-made entry families.
use crate::any::{EntryFamily, HashEntry, MapKey};
use vstd::prelude::*;

verus! {

/// The family in which each stored type has exactly one value, under the unit key.
pub struct Singleton;

impl<A: 'static> EntryFamily<A> for Singleton {
    type Result = Just<A>;
}

/// The entry of [`Singleton`]: a bare value, keyed by `()`.
#[derive(Debug, Clone, Copy, PartialEq, Eq)]
pub struct Just<A> {
    /// The wrapped value.
    pub some: A,
}

impl<A> Just<A> {
    /// Wrap a value.
    pub fn new(some: A) -> (r: Self)
        ensures
            r.some == some,
    {
        Just { some }
    }

    /// The wrapped value.
    pub fn get(&self) -> (r: &A)
        ensures
            *r == self.some,
    {
        &self.some
    }

    /// The wrapped value, mutably.
    pub fn get_mut(&mut self) -> (r: &mut A)
        ensures
            *r == old(self).some,
            final(self).some == *final(r),
    {
        &mut self.some
    }
}

impl<A: 'static> HashEntry for Just<A> {
    type Key = ();

    type Value = A;

    open spec fn key(&self) -> () {
        ()
    }

    open spec fn value(&self) -> A {
        self.some
    }

    proof fn lemma_split_determines(a: &Self, b: &Self) {
    }

    fn split_ref(&self) -> (r: (&(), &A)) {
        (&(), &self.some)
    }

    fn split_mut(&mut self) -> (r: (&(), &mut A)) {
        (&(), &mut self.some)
    }
}

/// The family in which each stored type has any number of values, one per `u32` variant.
pub struct MultiValued;

impl<A: 'static> EntryFamily<A> for MultiValued {
    type Result = Multiple<A>;
}

/// The entry of [`MultiValued`]: a value and the variant that keys it.
#[derive(Debug, Clone, Copy, PartialEq, Eq)]
pub struct Multiple<A> {
    /// The value.
    pub value: A,
    /// The key.
    pub variant: u32,
}

impl<A> Multiple<A> {
    /// Build an entry from its variant and value.
    pub fn new(variant: u32, value: A) -> (r: Self)
        ensures
            r.variant == variant,
            r.value == value,
    {
        Multiple { value, variant }
    }
}

impl<A: 'static> HashEntry for Multiple<A> {
    type Key = u32;

    type Value = A;

    open spec fn key(&self) -> u32 {
        self.variant
    }

    open spec fn value(&self) -> A {
        self.value
    }

    proof fn lemma_split_determines(a: &Self, b: &Self) {
    }

    fn split_ref(&self) -> (r: (&u32, &A)) {
        (&self.variant, &self.value)
    }

    fn split_mut(&mut self) -> (r: (&u32, &mut A)) {
        (&self.variant, &mut self.value)
    }
}

} // verus!
