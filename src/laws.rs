//! Laws that relate the operations of a table.
use crate::any::{CreateEntry, DynEq, EntryAt, EntryFamily, HashEntry, HashableAny, KeyAt};
use crate::map::TypeMap;
use vstd::prelude::*;

verus! {

/// In a well-formed table an entry is found for a key exactly when a record is filed under
/// that key's identity.
pub proof fn lemma_lookup_some<A, E: EntryFamily<A>, I: CreateEntry<A, E, Idx>, Idx>(
    m: TypeMap<E, I>,
    k: KeyAt<E, A>,
)
    requires
        m.wf(),
    ensures
        m.lookup::<A, Idx>(k) is Some <==> m@.contains_key(crate::map::ident_of::<A, E, I, Idx>(k)),
{
    m.lemma_view_idents();
    if m@.contains_key(crate::map::ident_of::<A, E, I, Idx>(k)) {
        I::lemma_recover(&m@[crate::map::ident_of::<A, E, I, Idx>(k)]);
    }
}

/// Filing an entry adds one record exactly when nothing was filed under its key; otherwise
/// the number of records stays.
pub proof fn law_insert_count<A, E: EntryFamily<A>, I: CreateEntry<A, E, Idx>, Idx>(
    before: TypeMap<E, I>,
    after: TypeMap<E, I>,
    e: EntryAt<E, A>,
)
    requires
        before.wf(),
        after@ == before@.insert(crate::map::ident_of::<A, E, I, Idx>(e.key()), I::inject(e)),
    ensures
        after@.len() == before@.len() + if before.lookup::<A, Idx>(e.key()) is Some {
            0int
        } else {
            1int
        },
{
    lemma_lookup_some::<A, E, I, Idx>(before, e.key());
    before.lemma_view_idents();
    assert(after@.dom() =~= before@.dom().insert(crate::map::ident_of::<A, E, I, Idx>(e.key())));
}

/// Removing a key removes one record exactly when an entry was filed under it; otherwise the
/// number of records stays.
pub proof fn law_remove_count<A, E: EntryFamily<A>, I: CreateEntry<A, E, Idx>, Idx>(
    before: TypeMap<E, I>,
    after: TypeMap<E, I>,
    k: KeyAt<E, A>,
)
    requires
        before.wf(),
        after@ == before@.remove(crate::map::ident_of::<A, E, I, Idx>(k)),
    ensures
        after@.len() == before@.len() - if before.lookup::<A, Idx>(k) is Some {
            1int
        } else {
            0int
        },
{
    lemma_lookup_some::<A, E, I, Idx>(before, k);
    before.lemma_view_idents();
    assert(after@.dom() =~= before@.dom().remove(crate::map::ident_of::<A, E, I, Idx>(k)));
}

/// After an entry is filed, looking up its key gives that entry.
pub proof fn law_insert_then_get<A, E: EntryFamily<A>, I: CreateEntry<A, E, Idx>, Idx>(
    before: TypeMap<E, I>,
    after: TypeMap<E, I>,
    e: EntryAt<E, A>,
)
    requires
        after@ == before@.insert(crate::map::ident_of::<A, E, I, Idx>(e.key()), I::inject(e)),
    ensures
        after.lookup::<A, Idx>(e.key()) == Some(e),
{
    I::lemma_inject(e);
}

/// Filing two entries with the same key one after the other: the second filing hands back the
/// first entry whole, the second entry is what is found, and the number of records is that of
/// the first filing.
pub proof fn law_insert_replaces<A, E: EntryFamily<A>, I: CreateEntry<A, E, Idx>, Idx>(
    first: TypeMap<E, I>,
    second: TypeMap<E, I>,
    e1: EntryAt<E, A>,
    e2: EntryAt<E, A>,
    r2: Option<EntryAt<E, A>>,
)
    requires
        first.wf(),
        e1.key() == e2.key(),
        first.lookup::<A, Idx>(e1.key()) == Some(e1),
        second@ == first@.insert(crate::map::ident_of::<A, E, I, Idx>(e2.key()), I::inject(e2)),
        r2 == first.lookup::<A, Idx>(e2.key()),
    ensures
        r2 == Some(e1),
        second.lookup::<A, Idx>(e2.key()) == Some(e2),
        second@.len() == first@.len(),
{
    law_insert_then_get::<A, E, I, Idx>(first, second, e2);
    law_insert_count::<A, E, I, Idx>(first, second, e2);
}

/// After a key is removed nothing is found under it; removing a key under which nothing was
/// filed leaves the table as it was.
pub proof fn law_remove_then_get<A, E: EntryFamily<A>, I: CreateEntry<A, E, Idx>, Idx>(
    before: TypeMap<E, I>,
    after: TypeMap<E, I>,
    k: KeyAt<E, A>,
    r: Option<EntryAt<E, A>>,
)
    requires
        before.wf(),
        after@ == before@.remove(crate::map::ident_of::<A, E, I, Idx>(k)),
        r == before.lookup::<A, Idx>(k),
    ensures
        after.lookup::<A, Idx>(k) is None,
        r is None ==> after@ == before@ && after@.len() == before@.len(),
{
    lemma_lookup_some::<A, E, I, Idx>(before, k);
    if r is None {
        assert(after@ =~= before@);
    }
}

/// Filing an entry of one stored type changes nothing that is found for another stored type,
/// whatever the keys.
pub proof fn law_insert_independent<A, B, E, I, IA, IB>(
    before: TypeMap<E, I>,
    after: TypeMap<E, I>,
    e: EntryAt<E, A>,
    k: KeyAt<E, B>,
) where E: EntryFamily<A> + EntryFamily<B>, I: CreateEntry<A, E, IA> + CreateEntry<B, E, IB>
    requires
        <I as CreateEntry<A, E, IA>>::tag() != <I as CreateEntry<B, E, IB>>::tag(),
        after@ == before@.insert(crate::map::ident_of::<A, E, I, IA>(e.key()), <I as CreateEntry<A, E, IA>>::inject(e)),
    ensures
        after.lookup::<B, IB>(k) == before.lookup::<B, IB>(k),
{
}

/// Removing a key of one stored type changes nothing that is found for another stored type,
/// whatever the keys.
pub proof fn law_remove_independent<A, B, E, I, IA, IB>(
    before: TypeMap<E, I>,
    after: TypeMap<E, I>,
    k1: KeyAt<E, A>,
    k2: KeyAt<E, B>,
) where E: EntryFamily<A> + EntryFamily<B>, I: CreateEntry<A, E, IA> + CreateEntry<B, E, IB>
    requires
        <I as CreateEntry<A, E, IA>>::tag() != <I as CreateEntry<B, E, IB>>::tag(),
        after@ == before@.remove(crate::map::ident_of::<A, E, I, IA>(k1)),
    ensures
        after.lookup::<B, IB>(k2) == before.lookup::<B, IB>(k2),
{
}

/// A copy of a table finds what the table finds, for every stored type and key.
pub proof fn law_copy_agrees<A, E: EntryFamily<A>, I: CreateEntry<A, E, Idx>, Idx>(
    source: TypeMap<E, I>,
    copy: TypeMap<E, I>,
    k: KeyAt<E, A>,
)
    requires
        copy@ == source@,
    ensures
        copy.lookup::<A, Idx>(k) == source.lookup::<A, Idx>(k),
{
}

/// Every table equals itself.
pub proof fn law_eq_reflexive<E, I: DynEq>(m: TypeMap<E, I>)
    requires
        m.wf(),
    ensures
        m.eq_model(&m),
{
    assert forall|id| #[trigger] m@.contains_key(id) implies m@.contains_key(id) && m@[id].eq_dyn_spec(
        &m@[id],
    ) by {
        I::lemma_eq_dyn_reflexive(&m@[id]);
    }
}

/// Two tables that hold the same records are equal, however they were built.
pub proof fn law_eq_same_records<E, I: DynEq>(a: TypeMap<E, I>, b: TypeMap<E, I>)
    requires
        a.wf(),
        b.wf(),
        a@ == b@,
    ensures
        a.eq_model(&b),
{
    law_eq_reflexive(a);
}

/// Filing two entries under different identities gives the same records in either order.
pub proof fn law_insert_order<A, B, E, I, IA, IB>(
    start: TypeMap<E, I>,
    a1: TypeMap<E, I>,
    a2: TypeMap<E, I>,
    b1: TypeMap<E, I>,
    b2: TypeMap<E, I>,
    e1: EntryAt<E, A>,
    e2: EntryAt<E, B>,
) where E: EntryFamily<A> + EntryFamily<B>, I: CreateEntry<A, E, IA> + CreateEntry<B, E, IB>
    requires
        crate::map::ident_of::<A, E, I, IA>(e1.key()) != crate::map::ident_of::<B, E, I, IB>(e2.key()),
        a1@ == start@.insert(crate::map::ident_of::<A, E, I, IA>(e1.key()), <I as CreateEntry<A, E, IA>>::inject(e1)),
        a2@ == a1@.insert(crate::map::ident_of::<B, E, I, IB>(e2.key()), <I as CreateEntry<B, E, IB>>::inject(e2)),
        b1@ == start@.insert(crate::map::ident_of::<B, E, I, IB>(e2.key()), <I as CreateEntry<B, E, IB>>::inject(e2)),
        b2@ == b1@.insert(crate::map::ident_of::<A, E, I, IA>(e1.key()), <I as CreateEntry<A, E, IA>>::inject(e1)),
    ensures
        a2@ == b2@,
{
    assert(a2@ =~= b2@);
}

} // verus!
