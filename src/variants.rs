//! Capabilities that a table's storage type may add to erased records.
use crate::any::{DynPartialEq, HashableAny};
use vstd::prelude::*;

verus! {

/// Erased records that can be duplicated without knowing their stored type.
pub trait CloneableHashableAny: HashableAny {
    /// An exact copy of the record.
    fn clone_any(&self) -> (r: Self)
        ensures
            r == *self,
    ;
}

/// Erased records that can be compared for equality without knowing their stored type.
pub trait PartialEqHashableAny: HashableAny + DynPartialEq {

}

impl<T: HashableAny + DynPartialEq> PartialEqHashableAny for T {

}

} // verus!
