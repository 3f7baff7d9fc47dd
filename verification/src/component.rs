//! The component store: maps (entity, type tag) to a loan slot, so that every
//! component value is independently checked out shared or exclusive.
//!
//! The store is generic over the payload `V`; an embedding program supplies
//! one tagged-union type and pairs each value with its tag in a
//! [`DynComponent`]. Checkout operations never block: when a slot is
//! contended they report `Busy` and leave the store unchanged, so a driver
//! can yield and retry.

use vstd::prelude::*;

use crate::entity::Entity;
use crate::loan::{Loan, LoanStorage};
use crate::util::TypeInfo;

verus! {

/// Marker for types that can be stored as components.
pub trait Component {}

/// A component value paired with the tag of its concrete type.
pub struct DynComponent<V> {
    pub type_id: TypeInfo,
    pub component: V,
}

impl<V> DynComponent<V> {
    pub fn new(type_id: TypeInfo, component: V) -> (r: DynComponent<V>)
        ensures
            r.type_id == type_id,
            r.component == component,
    {
        DynComponent { type_id, component }
    }
}

/// A value that converts into a list of tagged components, inserted together
/// on one entity.
pub trait Bundle<V>: Sized {
    /// The components the bundle carries.
    spec fn spec_components(self) -> Seq<DynComponent<V>>;

    fn into_dyn_components(self) -> (r: Vec<DynComponent<V>>)
        ensures
            r@ == self.spec_components(),
    ;
}

impl<V> Bundle<V> for Vec<DynComponent<V>> {
    open spec fn spec_components(self) -> Seq<DynComponent<V>> {
        self@
    }

    fn into_dyn_components(self) -> (r: Vec<DynComponent<V>>) {
        self
    }
}

impl<V> Bundle<V> for DynComponent<V> {
    open spec fn spec_components(self) -> Seq<DynComponent<V>> {
        seq![self]
    }

    fn into_dyn_components(self) -> (r: Vec<DynComponent<V>>) {
        let mut r: Vec<DynComponent<V>> = Vec::new();
        r.push(self);
        proof {
            assert(r@ =~= seq![self]);
        }
        r
    }
}

/// One (entity, tag) slot of the store.
pub struct ComponentEntry<V> {
    pub entity: Entity,
    pub type_id: TypeInfo,
    pub slot: LoanStorage<V>,
}

/// Whether `s` holds a slot for `(e, t)`.
pub open spec fn seq_has_entry<V>(s: Seq<ComponentEntry<V>>, e: Entity, t: TypeInfo) -> bool {
    exists|i: int| 0 <= i < s.len() && s[i].entity == e && s[i].type_id == t
}

/// The index of the slot for `(e, t)`; meaningful under [`seq_entries_wf`]
/// when [`seq_has_entry`] holds.
pub open spec fn entry_index<V>(s: Seq<ComponentEntry<V>>, e: Entity, t: TypeInfo) -> int {
    choose|i: int| 0 <= i < s.len() && s[i].entity == e && s[i].type_id == t
}

/// The slot for `(e, t)`.
pub open spec fn seq_slot<V>(s: Seq<ComponentEntry<V>>, e: Entity, t: TypeInfo) -> LoanStorage<V> {
    s[entry_index(s, e, t)].slot
}

/// Well-formed entry list: one slot per (entity, tag) pair, and no slot left
/// vacant (a vacant slot is deleted, never stored).
pub open spec fn seq_entries_wf<V>(s: Seq<ComponentEntry<V>>) -> bool {
    &&& forall|i: int, j: int|
        0 <= i < j < s.len() ==> !(#[trigger] s[i].entity == #[trigger] s[j].entity
            && s[i].type_id == s[j].type_id)
    &&& forall|i: int| 0 <= i < s.len() ==> !((#[trigger] s[i].slot) is Vacant)
}

/// Whether the entity vector `s` holds `e`.
pub open spec fn vec_has_entity(s: Seq<Entity>, e: Entity) -> bool {
    exists|k: int| 0 <= k < s.len() && s[k] == e
}

/// Whether some entry among the first `n` of `s` is keyed `(e, t)`.
pub open spec fn prefix_has_entry<V>(
    s: Seq<ComponentEntry<V>>,
    n: int,
    e: Entity,
    t: TypeInfo,
) -> bool {
    exists|k: int| 0 <= k < n && s[k].entity == e && s[k].type_id == t
}

/// Whether some entry among the first `n` of `s` belongs to entity `e`.
pub open spec fn prefix_has_entity<V>(s: Seq<ComponentEntry<V>>, n: int, e: Entity) -> bool {
    exists|k: int| 0 <= k < n && s[k].entity == e
}

/// Under well-formedness the witness index is the only match.
proof fn lemma_entry_index_unique<V>(s: Seq<ComponentEntry<V>>, e: Entity, t: TypeInfo)
    requires
        seq_entries_wf(s),
        seq_has_entry(s, e, t),
    ensures
        0 <= entry_index(s, e, t) < s.len(),
        s[entry_index(s, e, t)].entity == e,
        s[entry_index(s, e, t)].type_id == t,
        forall|j: int|
            0 <= j < s.len() && s[j].entity == e && s[j].type_id == t ==> j == entry_index(s, e, t),
{
    let i = entry_index(s, e, t);
    assert forall|j: int|
        0 <= j < s.len() && s[j].entity == e && s[j].type_id == t implies j == i by {
        if j < i {
            assert(!(s[j].entity == s[i].entity && s[j].type_id == s[i].type_id));
        } else if i < j {
            assert(!(s[i].entity == s[j].entity && s[i].type_id == s[j].type_id));
        }
    }
}

/// Replacing the slot at index `i` (same key) changes that key's slot and
/// nothing else.
proof fn lemma_entry_update<V>(s: Seq<ComponentEntry<V>>, i: int, x: ComponentEntry<V>)
    requires
        seq_entries_wf(s),
        0 <= i < s.len(),
        x.entity == s[i].entity,
        x.type_id == s[i].type_id,
        !(x.slot is Vacant),
    ensures
        seq_entries_wf(s.update(i, x)),
        forall|e: Entity, t: TypeInfo|
            seq_has_entry(s.update(i, x), e, t) == seq_has_entry(s, e, t),
        seq_has_entry(s, x.entity, x.type_id),
        seq_slot(s.update(i, x), x.entity, x.type_id) == x.slot,
        forall|e: Entity, t: TypeInfo|
            seq_has_entry(s, e, t) && !(e == x.entity && t == x.type_id) ==> seq_slot(
                s.update(i, x),
                e,
                t,
            ) == seq_slot(s, e, t),
{
    let s2 = s.update(i, x);
    assert(s[i].entity == x.entity && s[i].type_id == x.type_id);
    assert(seq_has_entry(s, x.entity, x.type_id));
    assert forall|e: Entity, t: TypeInfo|
        seq_has_entry(s2, e, t) == seq_has_entry(s, e, t) by {
        if seq_has_entry(s2, e, t) {
            let j = choose|j: int| 0 <= j < s2.len() && s2[j].entity == e && s2[j].type_id == t;
            if j == i {
                assert(s[i].entity == e && s[i].type_id == t);
            } else {
                assert(s[j].entity == e && s[j].type_id == t);
            }
        }
        if seq_has_entry(s, e, t) {
            let j = choose|j: int| 0 <= j < s.len() && s[j].entity == e && s[j].type_id == t;
            if j == i {
                assert(s2[i].entity == e && s2[i].type_id == t);
            } else {
                assert(s2[j].entity == e && s2[j].type_id == t);
            }
        }
    }
    lemma_entry_index_unique(s, x.entity, x.type_id);
    lemma_entry_index_unique(s2, x.entity, x.type_id);
    assert(entry_index(s, x.entity, x.type_id) == i);
    assert(entry_index(s2, x.entity, x.type_id) == i);
    assert forall|e: Entity, t: TypeInfo|
        seq_has_entry(s, e, t) && !(e == x.entity && t == x.type_id) implies seq_slot(s2, e, t)
        == seq_slot(s, e, t) by {
        lemma_entry_index_unique(s, e, t);
        lemma_entry_index_unique(s2, e, t);
        let j = entry_index(s, e, t);
        assert(j != i);
        assert(s2[j].entity == e && s2[j].type_id == t);
        assert(entry_index(s2, e, t) == j);
    }
}

/// Appending a slot with a fresh key adds that key and changes nothing else.
proof fn lemma_entry_push<V>(s: Seq<ComponentEntry<V>>, x: ComponentEntry<V>)
    requires
        seq_entries_wf(s),
        !seq_has_entry(s, x.entity, x.type_id),
        !(x.slot is Vacant),
    ensures
        seq_entries_wf(s.push(x)),
        forall|e: Entity, t: TypeInfo|
            seq_has_entry(s.push(x), e, t) == (seq_has_entry(s, e, t) || (e == x.entity && t
                == x.type_id)),
        seq_slot(s.push(x), x.entity, x.type_id) == x.slot,
        forall|e: Entity, t: TypeInfo|
            seq_has_entry(s, e, t) ==> seq_slot(s.push(x), e, t) == seq_slot(s, e, t),
{
    let s2 = s.push(x);
    let n = s.len() as int;
    assert forall|i: int, j: int|
        0 <= i < j < s2.len() implies !(s2[i].entity == s2[j].entity && s2[i].type_id
        == s2[j].type_id) by {
        if j == n {
            if s2[i].entity == x.entity && s2[i].type_id == x.type_id {
                assert(s[i].entity == x.entity && s[i].type_id == x.type_id);
                assert(seq_has_entry(s, x.entity, x.type_id));
            }
        }
    }
    assert forall|e: Entity, t: TypeInfo|
        seq_has_entry(s2, e, t) == (seq_has_entry(s, e, t) || (e == x.entity && t
        == x.type_id)) by {
        if seq_has_entry(s2, e, t) {
            let j = choose|j: int| 0 <= j < s2.len() && s2[j].entity == e && s2[j].type_id == t;
            if j < n {
                assert(s[j].entity == e && s[j].type_id == t);
            }
        }
        if seq_has_entry(s, e, t) {
            let j = choose|j: int| 0 <= j < s.len() && s[j].entity == e && s[j].type_id == t;
            assert(s2[j].entity == e && s2[j].type_id == t);
        }
        if e == x.entity && t == x.type_id {
            assert(s2[n].entity == e && s2[n].type_id == t);
        }
    }
    assert(seq_has_entry(s2, x.entity, x.type_id));
    lemma_entry_index_unique(s2, x.entity, x.type_id);
    assert(s2[n].entity == x.entity && s2[n].type_id == x.type_id);
    assert(entry_index(s2, x.entity, x.type_id) == n);
    assert forall|e: Entity, t: TypeInfo|
        seq_has_entry(s, e, t) implies seq_slot(s2, e, t) == seq_slot(s, e, t) by {
        lemma_entry_index_unique(s, e, t);
        lemma_entry_index_unique(s2, e, t);
        let j = entry_index(s, e, t);
        assert(s2[j].entity == e && s2[j].type_id == t);
        assert(entry_index(s2, e, t) == j);
    }
}

/// Deleting the slot at index `i` drops that key and changes nothing else.
proof fn lemma_entry_remove<V>(s: Seq<ComponentEntry<V>>, i: int)
    requires
        seq_entries_wf(s),
        0 <= i < s.len(),
    ensures
        seq_entries_wf(s.remove(i)),
        forall|e: Entity, t: TypeInfo|
            seq_has_entry(s.remove(i), e, t) == (seq_has_entry(s, e, t) && !(e == s[i].entity && t
                == s[i].type_id)),
        forall|e: Entity, t: TypeInfo|
            seq_has_entry(s, e, t) && !(e == s[i].entity && t == s[i].type_id) ==> seq_slot(
                s.remove(i),
                e,
                t,
            ) == seq_slot(s, e, t),
{
    let s2 = s.remove(i);
    assert forall|e: Entity, t: TypeInfo|
        seq_has_entry(s2, e, t) == (seq_has_entry(s, e, t) && !(e == s[i].entity && t
        == s[i].type_id)) by {
        if seq_has_entry(s2, e, t) {
            let j = choose|j: int| 0 <= j < s2.len() && s2[j].entity == e && s2[j].type_id == t;
            let j0: int = if j < i { j } else { j + 1 };
            assert(s[j0].entity == e && s[j0].type_id == t);
            if e == s[i].entity && t == s[i].type_id {
                assert(j0 != i);
                if j0 < i {
                    assert(!(s[j0].entity == s[i].entity && s[j0].type_id == s[i].type_id));
                } else {
                    assert(!(s[i].entity == s[j0].entity && s[i].type_id == s[j0].type_id));
                }
            }
        }
        if seq_has_entry(s, e, t) && !(e == s[i].entity && t == s[i].type_id) {
            let j = choose|j: int| 0 <= j < s.len() && s[j].entity == e && s[j].type_id == t;
            assert(j != i);
            if j < i {
                assert(s2[j].entity == e && s2[j].type_id == t);
            } else {
                assert(s2[j - 1].entity == e && s2[j - 1].type_id == t);
            }
        }
    }
    assert forall|e: Entity, t: TypeInfo|
        seq_has_entry(s, e, t) && !(e == s[i].entity && t == s[i].type_id) implies seq_slot(
        s2,
        e,
        t,
    ) == seq_slot(s, e, t) by {
        lemma_entry_index_unique(s, e, t);
        lemma_entry_index_unique(s2, e, t);
        let j = entry_index(s, e, t);
        assert(j != i);
        let j2: int = if j < i { j } else { j - 1 };
        assert(s2[j2].entity == e && s2[j2].type_id == t);
        assert(entry_index(s2, e, t) == j2);
        assert(s2[j2].slot == s[j].slot);
    }
}

/// What an insert reported.
pub enum InsertOutcome<V> {
    /// The (entity, tag) pair had no slot; one was created.
    Fresh,
    /// The slot existed and was uncontended; the previous value is returned.
    Replaced(V),
    /// The slot exists but a checkout is outstanding; the offered value is
    /// handed back and the store is unchanged. Retry after the checkout ends.
    Busy(DynComponent<V>),
}

/// What a remove reported.
pub enum RemoveOutcome<V> {
    /// The slot existed and was uncontended; it is gone and its value returned.
    Removed(V),
    /// No slot for this (entity, tag) pair.
    NotFound,
    /// A checkout is outstanding; the store is unchanged. Retry later.
    Busy,
}

/// What a shared-checkout request reported.
pub enum SharedGrant {
    /// Granted; the receipt records the new share count.
    Granted(Loan),
    /// No slot for this (entity, tag) pair.
    NotFound,
    /// An exclusive checkout is outstanding. Retry later.
    Busy,
}

/// What an exclusive-checkout request reported. On a grant the value leaves
/// the store and must come back through `return_exclusive`.
pub enum ExclusiveGrant<V> {
    Granted(V),
    /// No slot for this (entity, tag) pair.
    NotFound,
    /// Some checkout is outstanding. Retry later.
    Busy,
}

/// The effect of an insert: on a fresh pair a slot owning the value is
/// created; on an uncontended slot the value is replaced and the old one
/// returned; on a contended slot nothing changes and the offer comes back.
pub open spec fn insert_effect<V>(
    pre: Components<V>,
    post: Components<V>,
    entity: Entity,
    component: DynComponent<V>,
    r: InsertOutcome<V>,
) -> bool {
    let t = component.type_id;
    &&& (!pre.spec_has(entity, t) ==> r is Fresh)
    &&& (pre.spec_has(entity, t) && pre.spec_slot(entity, t) is Owned ==> r
        == InsertOutcome::<V>::Replaced(pre.spec_slot(entity, t)->Owned_0))
    &&& (pre.spec_has(entity, t) && !(pre.spec_slot(entity, t) is Owned) ==> r
        == InsertOutcome::<V>::Busy(component) && post.spec_entries() == pre.spec_entries())
    &&& (r is Fresh || r is Replaced ==> {
        &&& post.spec_slot(entity, t) == LoanStorage::Owned(component.component)
        &&& forall|e2: Entity, t2: TypeInfo|
            post.spec_has(e2, t2) == (pre.spec_has(e2, t2) || (e2 == entity && t2 == t))
        &&& forall|e2: Entity, t2: TypeInfo|
            pre.spec_has(e2, t2) && !(e2 == entity && t2 == t) ==> post.spec_slot(e2, t2)
                == pre.spec_slot(e2, t2)
    })
}

/// The effect of an unconditional insert: the slot owns the new value,
/// whatever was there before; nothing else changes.
pub open spec fn insert_discard_effect<V>(
    pre: Components<V>,
    post: Components<V>,
    entity: Entity,
    component: DynComponent<V>,
) -> bool {
    let t = component.type_id;
    &&& post.spec_slot(entity, t) == LoanStorage::Owned(component.component)
    &&& forall|e2: Entity, t2: TypeInfo|
        post.spec_has(e2, t2) == (pre.spec_has(e2, t2) || (e2 == entity && t2 == t))
    &&& forall|e2: Entity, t2: TypeInfo|
        pre.spec_has(e2, t2) && !(e2 == entity && t2 == t) ==> post.spec_slot(e2, t2)
            == pre.spec_slot(e2, t2)
}

/// The effect of a bundle insert: every bundled tag now has a slot on the
/// entity owning the value bundled under it (the last occurrence when a tag
/// repeats), and every pair outside the bundle is untouched.
pub open spec fn insert_bundle_effect<V>(
    pre: Components<V>,
    post: Components<V>,
    entity: Entity,
    bundle: Seq<DynComponent<V>>,
) -> bool {
    &&& forall|t2: TypeInfo|
        (exists|k: int| 0 <= k < bundle.len() && bundle[k].type_id == t2) ==> post.spec_has(
            entity,
            t2,
        )
    &&& forall|k: int|
        0 <= k < bundle.len() && (forall|l: int|
            k < l < bundle.len() ==> (#[trigger] bundle[l]).type_id != bundle[k].type_id)
            ==> post.spec_slot(entity, (#[trigger] bundle[k]).type_id) == LoanStorage::Owned(
            bundle[k].component,
        )
    &&& forall|e2: Entity, t2: TypeInfo|
        !(e2 == entity && exists|k: int| 0 <= k < bundle.len() && bundle[k].type_id == t2) ==> {
            &&& post.spec_has(e2, t2) == pre.spec_has(e2, t2)
            &&& (pre.spec_has(e2, t2) ==> post.spec_slot(e2, t2) == pre.spec_slot(e2, t2))
        }
}

/// The effect of a remove: an owned slot is deleted and its value returned;
/// a missing pair reports `NotFound`; a contended slot reports `Busy`; in
/// the latter two cases nothing changes.
pub open spec fn remove_effect<V>(
    pre: Components<V>,
    post: Components<V>,
    entity: Entity,
    type_id: TypeInfo,
    r: RemoveOutcome<V>,
) -> bool {
    &&& (!pre.spec_has(entity, type_id) ==> r is NotFound && post.spec_entries()
        == pre.spec_entries())
    &&& (pre.spec_has(entity, type_id) && !(pre.spec_slot(entity, type_id) is Owned) ==> r is Busy
        && post.spec_entries() == pre.spec_entries())
    &&& (pre.spec_has(entity, type_id) && pre.spec_slot(entity, type_id) is Owned ==> {
        &&& r == RemoveOutcome::<V>::Removed(pre.spec_slot(entity, type_id)->Owned_0)
        &&& forall|e2: Entity, t2: TypeInfo|
            post.spec_has(e2, t2) == (pre.spec_has(e2, t2) && !(e2 == entity && t2 == type_id))
        &&& forall|e2: Entity, t2: TypeInfo|
            pre.spec_has(e2, t2) && !(e2 == entity && t2 == type_id) ==> post.spec_slot(e2, t2)
                == pre.spec_slot(e2, t2)
    })
}

/// The effect of a shared-checkout request: granted exactly while the value
/// is present with no exclusive checkout outstanding, incrementing the share
/// count; otherwise nothing changes.
pub open spec fn get_effect<V>(
    pre: Components<V>,
    post: Components<V>,
    entity: Entity,
    type_id: TypeInfo,
    r: SharedGrant,
) -> bool {
    &&& (!pre.spec_has(entity, type_id) ==> r is NotFound && post.spec_entries()
        == pre.spec_entries())
    &&& (pre.spec_has(entity, type_id) && !pre.spec_slot(entity, type_id).can_checkout_shared()
        ==> r is Busy && post.spec_entries() == pre.spec_entries())
    &&& (pre.spec_has(entity, type_id) && pre.spec_slot(entity, type_id).can_checkout_shared()
        ==> {
        &&& r is Granted
        &&& post.spec_slot(entity, type_id) == LoanStorage::Loan(
            pre.spec_slot(entity, type_id).readable_value()->Some_0,
            (pre.spec_slot(entity, type_id).spec_share_count() + 1) as u64,
        )
        &&& forall|e2: Entity, t2: TypeInfo| post.spec_has(e2, t2) == pre.spec_has(e2, t2)
        &&& forall|e2: Entity, t2: TypeInfo|
            pre.spec_has(e2, t2) && !(e2 == entity && t2 == type_id) ==> post.spec_slot(e2, t2)
                == pre.spec_slot(e2, t2)
    })
}

/// The effect of an exclusive-checkout request: granted exactly from the
/// uncontended `Owned` state, moving the value out; otherwise nothing
/// changes.
pub open spec fn get_mut_effect<V>(
    pre: Components<V>,
    post: Components<V>,
    entity: Entity,
    type_id: TypeInfo,
    r: ExclusiveGrant<V>,
) -> bool {
    &&& (!pre.spec_has(entity, type_id) ==> r is NotFound && post.spec_entries()
        == pre.spec_entries())
    &&& (pre.spec_has(entity, type_id) && !(pre.spec_slot(entity, type_id) is Owned) ==> r is Busy
        && post.spec_entries() == pre.spec_entries())
    &&& (pre.spec_has(entity, type_id) && pre.spec_slot(entity, type_id) is Owned ==> {
        &&& r == ExclusiveGrant::<V>::Granted(pre.spec_slot(entity, type_id)->Owned_0)
        &&& post.spec_slot(entity, type_id) is LoanMut
        &&& forall|e2: Entity, t2: TypeInfo| post.spec_has(e2, t2) == pre.spec_has(e2, t2)
        &&& forall|e2: Entity, t2: TypeInfo|
            pre.spec_has(e2, t2) && !(e2 == entity && t2 == type_id) ==> post.spec_slot(e2, t2)
                == pre.spec_slot(e2, t2)
    })
}

/// The effect of ending one shared checkout: the share count drops, the last
/// release restoring the uncontended state; nothing else changes.
pub open spec fn release_shared_effect<V>(
    pre: Components<V>,
    post: Components<V>,
    entity: Entity,
    type_id: TypeInfo,
) -> bool {
    &&& (pre.spec_slot(entity, type_id).spec_share_count() > 1 ==> post.spec_slot(entity, type_id)
        == LoanStorage::Loan(
        pre.spec_slot(entity, type_id).readable_value()->Some_0,
        (pre.spec_slot(entity, type_id).spec_share_count() - 1) as u64,
    ))
    &&& (pre.spec_slot(entity, type_id).spec_share_count() <= 1 ==> post.spec_slot(entity, type_id)
        == LoanStorage::Owned(pre.spec_slot(entity, type_id).readable_value()->Some_0))
    &&& forall|e2: Entity, t2: TypeInfo| post.spec_has(e2, t2) == pre.spec_has(e2, t2)
    &&& forall|e2: Entity, t2: TypeInfo|
        pre.spec_has(e2, t2) && !(e2 == entity && t2 == type_id) ==> post.spec_slot(e2, t2)
            == pre.spec_slot(e2, t2)
}

/// The effect of returning the exclusively checked-out value: the slot owns
/// it again; nothing else changes.
pub open spec fn return_exclusive_effect<V>(
    pre: Components<V>,
    post: Components<V>,
    entity: Entity,
    type_id: TypeInfo,
    value: V,
) -> bool {
    &&& post.spec_slot(entity, type_id) == LoanStorage::Owned(value)
    &&& forall|e2: Entity, t2: TypeInfo| post.spec_has(e2, t2) == pre.spec_has(e2, t2)
    &&& forall|e2: Entity, t2: TypeInfo|
        pre.spec_has(e2, t2) && !(e2 == entity && t2 == type_id) ==> post.spec_slot(e2, t2)
            == pre.spec_slot(e2, t2)
}

/// The component store.
pub struct Components<V> {
    entries: Vec<ComponentEntry<V>>,
}

impl<V> Components<V> {
    /// The entry list itself; the other spec functions are views of it.
    pub closed spec fn spec_entries(&self) -> Seq<ComponentEntry<V>> {
        self.entries@
    }

    /// Well-formed: one slot per (entity, tag), none vacant.
    pub open spec fn wf(&self) -> bool {
        seq_entries_wf(self.spec_entries())
    }

    /// Whether a slot exists for `(e, t)`, whatever its checkout state.
    /// A function of `spec_entries()` alone, so equal entry lists agree on
    /// it everywhere.
    pub open spec fn spec_has(&self, e: Entity, t: TypeInfo) -> bool {
        seq_has_entry(self.spec_entries(), e, t)
    }

    /// The slot for `(e, t)`; meaningful when `spec_has(e, t)`. A function
    /// of `spec_entries()` alone.
    pub open spec fn spec_slot(&self, e: Entity, t: TypeInfo) -> LoanStorage<V> {
        seq_slot(self.spec_entries(), e, t)
    }

    /// The value a reader would see for `(e, t)` right now.
    pub open spec fn read_value(&self, e: Entity, t: TypeInfo) -> Option<V> {
        if self.spec_has(e, t) {
            self.spec_slot(e, t).readable_value()
        } else {
            None
        }
    }

    pub fn new() -> (r: Components<V>)
        ensures
            r.wf(),
            forall|e: Entity, t: TypeInfo| !r.spec_has(e, t),
    {
        Components { entries: Vec::new() }
    }

    /// The index of the slot for `(entity, type_id)`, if there is one.
    fn find(&self, entity: Entity, type_id: TypeInfo) -> (r: Option<usize>)
        ensures
            match r {
                Some(i) => i < self.entries@.len() && self.entries@[i as int].entity == entity
                    && self.entries@[i as int].type_id == type_id,
                None => !seq_has_entry(self.entries@, entity, type_id),
            },
    {
        let mut i: usize = 0;
        while i < self.entries.len()
            invariant
                0 <= i <= self.entries@.len(),
                forall|k: int|
                    0 <= k < i ==> !(#[trigger] self.entries@[k].entity == entity
                        && self.entries@[k].type_id == type_id),
            decreases self.entries@.len() - i,
        {
            let entry = &self.entries[i];
            if entry.entity == entity && entry.type_id == type_id {
                return Some(i);
            }
            i = i + 1;
        }
        None
    }

    /// Creates or replaces the slot for `(entity, component.type_id)` with an
    /// uncontended slot owning `component`'s value, returning the previous
    /// value if there was one. While a checkout on the old slot is
    /// outstanding the replacement would lose a live value, so the offer is
    /// handed back as `Busy` and the caller retries once the slot is
    /// returned.
    pub fn insert(&mut self, entity: Entity, component: DynComponent<V>) -> (r: InsertOutcome<V>)
        requires
            old(self).wf(),
        ensures
            final(self).wf(),
            insert_effect(*old(self), *final(self), entity, component, r),
    {
        let type_id = component.type_id;
        match self.find(entity, type_id) {
            None => {
                let entry = ComponentEntry {
                    entity,
                    type_id,
                    slot: LoanStorage::new(component.component),
                };
                proof {
                    lemma_entry_push(self.entries@, entry);
                }
                self.entries.push(entry);
                InsertOutcome::Fresh
            }
            Some(i) => {
                proof {
                    lemma_entry_index_unique(self.entries@, entity, type_id);
                }
                let ghost s0 = self.entries@;
                let mut entry = self.entries.remove(i);
                match entry.slot.checkout_exclusive() {
                    Some(old_value) => {
                        entry.slot.return_exclusive(component.component);
                        self.entries.insert(i, entry);
                        proof {
                            assert(self.entries@ =~= s0.update(i as int, entry));
                            lemma_entry_update(s0, i as int, entry);
                        }
                        InsertOutcome::Replaced(old_value)
                    }
                    None => {
                        self.entries.insert(i, entry);
                        proof {
                            assert(self.entries@ =~= s0.update(i as int, entry));
                            assert(self.entries@ =~= s0);
                        }
                        InsertOutcome::Busy(component)
                    }
                }
            }
        }
    }

    /// Creates or replaces the slot unconditionally, discarding the old slot
    /// whatever its state (a value still checked out stays with its borrower
    /// and is never returned to the store).
    pub fn insert_discard(&mut self, entity: Entity, component: DynComponent<V>)
        requires
            old(self).wf(),
        ensures
            final(self).wf(),
            insert_discard_effect(*old(self), *final(self), entity, component),
    {
        let type_id = component.type_id;
        match self.find(entity, type_id) {
            None => {
                let entry = ComponentEntry {
                    entity,
                    type_id,
                    slot: LoanStorage::new(component.component),
                };
                proof {
                    lemma_entry_push(self.entries@, entry);
                }
                self.entries.push(entry);
            }
            Some(i) => {
                proof {
                    lemma_entry_index_unique(self.entries@, entity, type_id);
                }
                let ghost s0 = self.entries@;
                let mut entry = self.entries.remove(i);
                entry.slot = LoanStorage::new(component.component);
                self.entries.insert(i, entry);
                proof {
                    assert(self.entries@ =~= s0.update(i as int, entry));
                    lemma_entry_update(s0, i as int, entry);
                }
            }
        }
    }

    /// Inserts every component of the bundle in order, with the same discard
    /// discipline as [`Components::insert_discard`].
    pub fn insert_bundle(&mut self, entity: Entity, bundle: Vec<DynComponent<V>>)
        requires
            old(self).wf(),
        ensures
            final(self).wf(),
            insert_bundle_effect(*old(self), *final(self), entity, bundle@),
    {
        let ghost orig = *self;
        let mut bundle = bundle;
        let ghost all = bundle@;
        let mut i: usize = 0;
        let n = bundle.len();
        while i < n
            invariant
                0 <= i <= n,
                n == all.len(),
                bundle@ =~= all.subrange(i as int, n as int),
                self.wf(),
                orig == *old(self),
                forall|t2: TypeInfo|
                    (exists|k: int| 0 <= k < i && all[k].type_id == t2) ==> self.spec_has(
                        entity,
                        t2,
                    ),
                forall|k: int|
                    0 <= k < i && (forall|l: int|
                        k < l < i ==> (#[trigger] all[l]).type_id != all[k].type_id)
                        ==> self.spec_slot(entity, (#[trigger] all[k]).type_id)
                        == LoanStorage::Owned(all[k].component),
                forall|e2: Entity, t2: TypeInfo|
                    !(e2 == entity && exists|k: int| 0 <= k < i && all[k].type_id == t2) ==> {
                        &&& self.spec_has(e2, t2) == orig.spec_has(e2, t2)
                        &&& (orig.spec_has(e2, t2) ==> self.spec_slot(e2, t2) == orig.spec_slot(
                            e2,
                            t2,
                        ))
                    },
            decreases n - i,
        {
            let component = bundle.remove(0);
            proof {
                assert(component == all[i as int]);
                assert(bundle@ =~= all.subrange(i + 1, n as int));
            }
            let ghost mid = *self;
            self.insert_discard(entity, component);
            i = i + 1;
            proof {
                assert forall|k: int|
                    0 <= k < i && (forall|l: int|
                        k < l < i ==> (#[trigger] all[l]).type_id != all[k].type_id)
                        implies self.spec_slot(entity, (#[trigger] all[k]).type_id)
                        == LoanStorage::Owned(all[k].component) by {
                    if k == i - 1 {
                        assert(self.spec_slot(entity, all[k].type_id) == LoanStorage::Owned(
                            all[k].component,
                        ));
                    } else {
                        assert(all[i - 1].type_id != all[k].type_id);
                        assert(forall|l: int|
                            k < l < i - 1 ==> (#[trigger] all[l]).type_id != all[k].type_id);
                        assert(mid.spec_slot(entity, all[k].type_id) == LoanStorage::Owned(
                            all[k].component,
                        ));
                        assert(mid.spec_has(entity, all[k].type_id));
                        assert(self.spec_slot(entity, all[k].type_id) == mid.spec_slot(
                            entity,
                            all[k].type_id,
                        ));
                    }
                }
            }
        }
    }

    /// Deletes the slot for `(entity, type_id)` and returns its value. While
    /// a checkout is outstanding the value is not in the store to give back,
    /// so the call reports `Busy` and the caller retries.
    pub fn remove(&mut self, entity: Entity, type_id: TypeInfo) -> (r: RemoveOutcome<V>)
        requires
            old(self).wf(),
        ensures
            final(self).wf(),
            remove_effect(*old(self), *final(self), entity, type_id, r),
    {
        match self.find(entity, type_id) {
            None => RemoveOutcome::NotFound,
            Some(i) => {
                proof {
                    lemma_entry_index_unique(self.entries@, entity, type_id);
                }
                let ghost s0 = self.entries@;
                let mut entry = self.entries.remove(i);
                match entry.slot.checkout_exclusive() {
                    Some(value) => {
                        proof {
                            lemma_entry_remove(s0, i as int);
                        }
                        RemoveOutcome::Removed(value)
                    }
                    None => {
                        self.entries.insert(i, entry);
                        proof {
                            assert(self.entries@ =~= s0);
                        }
                        RemoveOutcome::Busy
                    }
                }
            }
        }
    }

    /// Requests a shared checkout of `(entity, type_id)`: granted while the
    /// slot is owned or already shared, refused while an exclusive checkout
    /// is outstanding.
    pub fn get(&mut self, entity: Entity, type_id: TypeInfo) -> (r: SharedGrant)
        requires
            old(self).wf(),
        ensures
            final(self).wf(),
            get_effect(*old(self), *final(self), entity, type_id, r),
    {
        match self.find(entity, type_id) {
            None => SharedGrant::NotFound,
            Some(i) => {
                proof {
                    lemma_entry_index_unique(self.entries@, entity, type_id);
                }
                let ghost s0 = self.entries@;
                let mut entry = self.entries.remove(i);
                match entry.slot.checkout_shared() {
                    Some(loan) => {
                        self.entries.insert(i, entry);
                        proof {
                            assert(self.entries@ =~= s0.update(i as int, entry));
                            lemma_entry_update(s0, i as int, entry);
                        }
                        SharedGrant::Granted(loan)
                    }
                    None => {
                        self.entries.insert(i, entry);
                        proof {
                            assert(self.entries@ =~= s0);
                        }
                        SharedGrant::Busy
                    }
                }
            }
        }
    }

    /// Requests the exclusive checkout of `(entity, type_id)`: granted only
    /// while the slot is owned and uncontended; the value moves out of the
    /// store until [`Components::return_exclusive`] brings it back.
    pub fn get_mut(&mut self, entity: Entity, type_id: TypeInfo) -> (r: ExclusiveGrant<V>)
        requires
            old(self).wf(),
        ensures
            final(self).wf(),
            get_mut_effect(*old(self), *final(self), entity, type_id, r),
    {
        match self.find(entity, type_id) {
            None => ExclusiveGrant::NotFound,
            Some(i) => {
                proof {
                    lemma_entry_index_unique(self.entries@, entity, type_id);
                }
                let ghost s0 = self.entries@;
                let mut entry = self.entries.remove(i);
                match entry.slot.checkout_exclusive() {
                    Some(value) => {
                        self.entries.insert(i, entry);
                        proof {
                            assert(self.entries@ =~= s0.update(i as int, entry));
                            lemma_entry_update(s0, i as int, entry);
                        }
                        ExclusiveGrant::Granted(value)
                    }
                    None => {
                        self.entries.insert(i, entry);
                        proof {
                            assert(self.entries@ =~= s0);
                        }
                        ExclusiveGrant::Busy
                    }
                }
            }
        }
    }

    /// Ends one shared checkout of `(entity, type_id)`.
    pub fn release_shared(&mut self, entity: Entity, type_id: TypeInfo)
        requires
            old(self).wf(),
            old(self).spec_has(entity, type_id),
            old(self).spec_slot(entity, type_id) is Loan,
        ensures
            final(self).wf(),
            release_shared_effect(*old(self), *final(self), entity, type_id),
    {
        match self.find(entity, type_id) {
            None => {
                proof {
                    assert(false);
                }
            }
            Some(i) => {
                proof {
                    lemma_entry_index_unique(self.entries@, entity, type_id);
                }
                let ghost s0 = self.entries@;
                let mut entry = self.entries.remove(i);
                entry.slot.release_shared();
                self.entries.insert(i, entry);
                proof {
                    assert(self.entries@ =~= s0.update(i as int, entry));
                    lemma_entry_update(s0, i as int, entry);
                }
            }
        }
    }

    /// Returns the exclusively checked-out value of `(entity, type_id)`.
    pub fn return_exclusive(&mut self, entity: Entity, type_id: TypeInfo, value: V)
        requires
            old(self).wf(),
            old(self).spec_has(entity, type_id),
            old(self).spec_slot(entity, type_id) is LoanMut,
        ensures
            final(self).wf(),
            return_exclusive_effect(*old(self), *final(self), entity, type_id, value),
    {
        match self.find(entity, type_id) {
            None => {
                proof {
                    assert(false);
                }
            }
            Some(i) => {
                proof {
                    lemma_entry_index_unique(self.entries@, entity, type_id);
                }
                let ghost s0 = self.entries@;
                let mut entry = self.entries.remove(i);
                entry.slot.return_exclusive(value);
                self.entries.insert(i, entry);
                proof {
                    assert(self.entries@ =~= s0.update(i as int, entry));
                    lemma_entry_update(s0, i as int, entry);
                }
            }
        }
    }

    /// Reads the value of `(entity, type_id)` while it is in the store.
    pub fn read(&self, entity: Entity, type_id: TypeInfo) -> (r: Option<&V>)
        requires
            self.wf(),
        ensures
            match r {
                Some(v) => self.read_value(entity, type_id) == Some(*v),
                None => self.read_value(entity, type_id) is None,
            },
    {
        match self.find(entity, type_id) {
            None => None,
            Some(i) => {
                proof {
                    lemma_entry_index_unique(self.entries@, entity, type_id);
                }
                let entry = &self.entries[i];
                entry.slot.peek()
            }
        }
    }

    /// Whether a slot exists for `(entity, type_id)`. A synchronous index
    /// lookup: it says nothing about whether a checkout would be granted.
    pub fn has(&self, entity: Entity, type_id: TypeInfo) -> (r: bool)
        ensures
            r == self.spec_has(entity, type_id),
    {
        match self.find(entity, type_id) {
            Some(_) => true,
            None => false,
        }
    }

    /// Every entity holding a component of tag `type_id`, each once.
    pub fn entities_with(&self, type_id: TypeInfo) -> (r: Vec<Entity>)
        requires
            self.wf(),
        ensures
            forall|e: Entity| self.spec_has(e, type_id) == vec_has_entity(r@, e),
            forall|k: int, l: int| 0 <= k < l < r@.len() ==> r@[k] != r@[l],
    {
        let mut r: Vec<Entity> = Vec::new();
        let mut i: usize = 0;
        while i < self.entries.len()
            invariant
                0 <= i <= self.entries@.len(),
                self.wf(),
                forall|e: Entity|
                    prefix_has_entry(self.entries@, i as int, e, type_id) == vec_has_entity(r@, e),
                forall|k: int, l: int| 0 <= k < l < r@.len() ==> r@[k] != r@[l],
            decreases self.entries@.len() - i,
        {
            let ghost r0 = r@;
            let ghost i0 = i as int;
            let entry = &self.entries[i];
            let entry_entity = entry.entity;
            if entry.type_id == type_id {
                proof {
                    if vec_has_entity(r@, entry_entity) {
                        assert(prefix_has_entry(self.entries@, i0, entry_entity, type_id));
                        let j = choose|j: int|
                            0 <= j < i0 && self.entries@[j].entity == entry_entity
                                && self.entries@[j].type_id == type_id;
                        assert(!(self.entries@[j].entity == self.entries@[i0].entity
                            && self.entries@[j].type_id == self.entries@[i0].type_id));
                        assert(false);
                    }
                }
                r.push(entry_entity);
            }
            i = i + 1;
            proof {
                assert forall|e: Entity|
                    prefix_has_entry(self.entries@, i as int, e, type_id) implies vec_has_entity(
                    r@,
                    e,
                ) by {
                    let k = choose|k: int|
                        0 <= k < i && self.entries@[k].entity == e && self.entries@[k].type_id
                            == type_id;
                    if k < i0 {
                        assert(prefix_has_entry(self.entries@, i0, e, type_id));
                        assert(vec_has_entity(r0, e));
                        let m = choose|m: int| 0 <= m < r0.len() && r0[m] == e;
                        assert(r@[m] == e);
                    } else {
                        assert(e == entry_entity);
                        assert(r@[r@.len() - 1] == e);
                    }
                }
                assert forall|e: Entity|
                    vec_has_entity(r@, e) implies prefix_has_entry(
                    self.entries@,
                    i as int,
                    e,
                    type_id,
                ) by {
                    let m = choose|m: int| 0 <= m < r@.len() && r@[m] == e;
                    if m < r0.len() {
                        assert(r0[m] == e);
                        assert(vec_has_entity(r0, e));
                        assert(prefix_has_entry(self.entries@, i0, e, type_id));
                        let k = choose|k: int|
                            0 <= k < i0 && self.entries@[k].entity == e && self.entries@[k].type_id
                                == type_id;
                        assert(0 <= k < i as int && self.entries@[k].entity == e
                            && self.entries@[k].type_id == type_id);
                    } else {
                        assert(e == entry_entity);
                        assert(self.entries@[i0].entity == e && self.entries@[i0].type_id
                            == type_id);
                    }
                }
            }
        }
        proof {
            assert forall|e: Entity| self.spec_has(e, type_id) == vec_has_entity(r@, e) by {
                assert(prefix_has_entry(self.entries@, self.entries@.len() as int, e, type_id)
                    == self.spec_has(e, type_id));
            }
        }
        r
    }

    /// Every entity holding at least one component, each once. An entity
    /// whose components were all removed is no longer listed: the store
    /// keeps no empty entries, so "known entity" means "currently holds
    /// something".
    pub fn entity_iter(&self) -> (r: Vec<Entity>)
        ensures
            forall|e: Entity| (exists|t: TypeInfo| self.spec_has(e, t)) == vec_has_entity(r@, e),
            forall|k: int, l: int| 0 <= k < l < r@.len() ==> r@[k] != r@[l],
    {
        let mut r: Vec<Entity> = Vec::new();
        let mut i: usize = 0;
        while i < self.entries.len()
            invariant
                0 <= i <= self.entries@.len(),
                forall|e: Entity|
                    prefix_has_entity(self.entries@, i as int, e) == vec_has_entity(r@, e),
                forall|k: int, l: int| 0 <= k < l < r@.len() ==> r@[k] != r@[l],
            decreases self.entries@.len() - i,
        {
            let ghost r0 = r@;
            let ghost i0 = i as int;
            let entry_entity = self.entries[i].entity;
            let already = vec_contains_entity(&r, entry_entity);
            if !already {
                r.push(entry_entity);
            }
            i = i + 1;
            proof {
                assert forall|e: Entity|
                    prefix_has_entity(self.entries@, i as int, e) implies vec_has_entity(r@, e) by {
                    let k = choose|k: int| 0 <= k < i && self.entries@[k].entity == e;
                    if k < i0 {
                        assert(prefix_has_entity(self.entries@, i0, e));
                        assert(vec_has_entity(r0, e));
                        let m = choose|m: int| 0 <= m < r0.len() && r0[m] == e;
                        assert(r@[m] == e);
                    } else {
                        assert(e == entry_entity);
                        if already {
                            let m = choose|m: int| 0 <= m < r0.len() && r0[m] == e;
                            assert(r@[m] == e);
                        } else {
                            assert(r@[r@.len() - 1] == e);
                        }
                    }
                }
                assert forall|e: Entity|
                    vec_has_entity(r@, e) implies prefix_has_entity(self.entries@, i as int, e) by {
                    let m = choose|m: int| 0 <= m < r@.len() && r@[m] == e;
                    if m < r0.len() {
                        assert(r0[m] == e);
                        assert(vec_has_entity(r0, e));
                        assert(prefix_has_entity(self.entries@, i0, e));
                        let k = choose|k: int| 0 <= k < i0 && self.entries@[k].entity == e;
                        assert(0 <= k < i as int && self.entries@[k].entity == e);
                    } else {
                        assert(e == entry_entity);
                        assert(self.entries@[i0].entity == e);
                    }
                }
            }
        }
        proof {
            assert forall|e: Entity|
                (exists|t: TypeInfo| self.spec_has(e, t)) == vec_has_entity(r@, e) by {
                if exists|t: TypeInfo| self.spec_has(e, t) {
                    let t = choose|t: TypeInfo| self.spec_has(e, t);
                    let k = choose|k: int|
                        0 <= k < self.entries@.len() && self.entries@[k].entity == e
                            && self.entries@[k].type_id == t;
                    assert(prefix_has_entity(self.entries@, self.entries@.len() as int, e));
                }
                if vec_has_entity(r@, e) {
                    assert(prefix_has_entity(self.entries@, self.entries@.len() as int, e));
                    let k = choose|k: int|
                        0 <= k < self.entries@.len() && self.entries@[k].entity == e;
                    assert(self.spec_has(e, self.entries@[k].type_id));
                }
            }
        }
        r
    }
}

impl<V> Default for Components<V> {
    fn default() -> (r: Components<V>)
        ensures
            r.wf(),
            forall|e: Entity, t: TypeInfo| !r.spec_has(e, t),
    {
        Components::new()
    }
}

/// Whether `v` holds `e`.
fn vec_contains_entity(v: &Vec<Entity>, e: Entity) -> (r: bool)
    ensures
        r == vec_has_entity(v@, e),
{
    let mut i: usize = 0;
    while i < v.len()
        invariant
            0 <= i <= v@.len(),
            forall|k: int| 0 <= k < i ==> v@[k] != e,
        decreases v@.len() - i,
    {
        if v[i] == e {
            return true;
        }
        i = i + 1;
    }
    false
}

/// After `insert(entity, v)` and with no intervening remove, the slot owns
/// exactly `v`: a read yields a value equal to `v`, and both a shared and the
/// exclusive checkout would be granted.
pub proof fn lemma_inserted_component_readable<V>(
    c: Components<V>,
    entity: Entity,
    type_id: TypeInfo,
    v: V,
)
    requires
        c.spec_has(entity, type_id),
        c.spec_slot(entity, type_id) == LoanStorage::Owned(v),
    ensures
        c.read_value(entity, type_id) == Some(v),
        c.spec_slot(entity, type_id).can_checkout_shared(),
        c.spec_slot(entity, type_id).can_checkout_exclusive(),
{
}

/// After a successful `remove`, the pair has no slot at all: a read yields
/// nothing and `has` is false — and this holds of every pair the store does
/// not carry.
pub proof fn lemma_removed_component_gone<V>(c: Components<V>, entity: Entity, type_id: TypeInfo)
    requires
        !c.spec_has(entity, type_id),
    ensures
        c.read_value(entity, type_id) is None,
{
}

} // verus!
