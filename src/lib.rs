//! A store of one or several values for each type, in a single hash table.
//!
//! A [`TypeMap<E, I>`](TypeMap) files entries of many stored types side by side. The entry
//! family `E` gives each stored type `A` the shape of its entries ([`EntryAt<E, A>`]): with
//! [`Singleton`] a type has one value under the unit key, with [`MultiValued`] it has one value
//! per `u32` variant. All records are kept in the one storage type `I`, which knows how to
//! build a record from an entry and how to recover the entry ([`CreateEntry`]); a chain of
//! [`Sum`]s of [`InnerEntry`] holds as many stored types as it has links:
//!
//! `TypeMap<Singleton, Sum<InnerEntry<Singleton, u32>, Sum<InnerEntry<Singleton, u64>, Nil>>>`
//!
//! Every record has an identity, the tag of its stored type and the id of its key. The table is
//! specified as a map from identities to records; lookups are stated over that map, and the
//! laws that relate the operations are proved in [`laws`].
pub mod any;
pub mod entry;
pub mod families;
mod index;
pub mod laws;
pub mod map;
pub mod storage;
pub mod variants;

pub use any::{
    CreateEntry, DefaultKey, DynEq, DynPartialEq, EntryAt, EntryFamily, HashEntry, HashableAny,
    Ident, IntoBox, KeyAt, MapKey, ValueAt,
};
pub use entry::{Entry, OccupiedEntry, VacantEntry};
pub use families::{Just, MultiValued, Multiple, Singleton};
pub use map::{InnerEntry, TypeMap};
pub use storage::{Here, Nil, Sum, There};
pub use variants::{CloneableHashableAny, PartialEqHashableAny};
