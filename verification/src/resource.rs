//! The resource store: one loan slot per type tag, for singleton values not
//! attached to any entity. Same checkout discipline as the component store.

use vstd::prelude::*;

use crate::component::{DynComponent, ExclusiveGrant, InsertOutcome, RemoveOutcome, SharedGrant};
use crate::loan::LoanStorage;
use crate::util::TypeInfo;

verus! {

/// One tag's slot.
pub struct ResourceEntry<V> {
    pub type_id: TypeInfo,
    pub slot: LoanStorage<V>,
}

/// Whether `s` holds a slot for tag `t`.
pub open spec fn res_has_entry<V>(s: Seq<ResourceEntry<V>>, t: TypeInfo) -> bool {
    exists|i: int| 0 <= i < s.len() && s[i].type_id == t
}

/// The index of the slot for `t`; meaningful under [`res_entries_wf`] when
/// [`res_has_entry`] holds.
pub open spec fn res_entry_index<V>(s: Seq<ResourceEntry<V>>, t: TypeInfo) -> int {
    choose|i: int| 0 <= i < s.len() && s[i].type_id == t
}

/// The slot for tag `t`.
pub open spec fn res_slot<V>(s: Seq<ResourceEntry<V>>, t: TypeInfo) -> LoanStorage<V> {
    s[res_entry_index(s, t)].slot
}

/// Well-formed: one slot per tag, none vacant.
pub open spec fn res_entries_wf<V>(s: Seq<ResourceEntry<V>>) -> bool {
    &&& forall|i: int, j: int|
        0 <= i < j < s.len() ==> !(#[trigger] s[i].type_id == #[trigger] s[j].type_id)
    &&& forall|i: int| 0 <= i < s.len() ==> !((#[trigger] s[i].slot) is Vacant)
}

proof fn lemma_res_index_unique<V>(s: Seq<ResourceEntry<V>>, t: TypeInfo)
    requires
        res_entries_wf(s),
        res_has_entry(s, t),
    ensures
        0 <= res_entry_index(s, t) < s.len(),
        s[res_entry_index(s, t)].type_id == t,
        forall|j: int| 0 <= j < s.len() && s[j].type_id == t ==> j == res_entry_index(s, t),
{
    let i = res_entry_index(s, t);
    assert forall|j: int| 0 <= j < s.len() && s[j].type_id == t implies j == i by {
        if j < i {
            assert(!(s[j].type_id == s[i].type_id));
        } else if i < j {
            assert(!(s[i].type_id == s[j].type_id));
        }
    }
}

proof fn lemma_res_update<V>(s: Seq<ResourceEntry<V>>, i: int, x: ResourceEntry<V>)
    requires
        res_entries_wf(s),
        0 <= i < s.len(),
        x.type_id == s[i].type_id,
        !(x.slot is Vacant),
    ensures
        res_entries_wf(s.update(i, x)),
        forall|t: TypeInfo| res_has_entry(s.update(i, x), t) == res_has_entry(s, t),
        res_has_entry(s, x.type_id),
        res_slot(s.update(i, x), x.type_id) == x.slot,
        forall|t: TypeInfo|
            res_has_entry(s, t) && t != x.type_id ==> res_slot(s.update(i, x), t) == res_slot(s, t),
{
    let s2 = s.update(i, x);
    assert(res_has_entry(s, x.type_id));
    assert forall|t: TypeInfo| res_has_entry(s2, t) == res_has_entry(s, t) by {
        if res_has_entry(s2, t) {
            let j = choose|j: int| 0 <= j < s2.len() && s2[j].type_id == t;
            if j == i {
                assert(s[i].type_id == t);
            } else {
                assert(s[j].type_id == t);
            }
        }
        if res_has_entry(s, t) {
            let j = choose|j: int| 0 <= j < s.len() && s[j].type_id == t;
            if j == i {
                assert(s2[i].type_id == t);
            } else {
                assert(s2[j].type_id == t);
            }
        }
    }
    lemma_res_index_unique(s, x.type_id);
    lemma_res_index_unique(s2, x.type_id);
    assert(res_entry_index(s2, x.type_id) == i);
    assert forall|t: TypeInfo|
        res_has_entry(s, t) && t != x.type_id implies res_slot(s2, t) == res_slot(s, t) by {
        lemma_res_index_unique(s, t);
        lemma_res_index_unique(s2, t);
        let j = res_entry_index(s, t);
        assert(j != i);
        assert(s2[j].type_id == t);
        assert(res_entry_index(s2, t) == j);
    }
}

proof fn lemma_res_push<V>(s: Seq<ResourceEntry<V>>, x: ResourceEntry<V>)
    requires
        res_entries_wf(s),
        !res_has_entry(s, x.type_id),
        !(x.slot is Vacant),
    ensures
        res_entries_wf(s.push(x)),
        forall|t: TypeInfo|
            res_has_entry(s.push(x), t) == (res_has_entry(s, t) || t == x.type_id),
        res_slot(s.push(x), x.type_id) == x.slot,
        forall|t: TypeInfo| res_has_entry(s, t) ==> res_slot(s.push(x), t) == res_slot(s, t),
{
    let s2 = s.push(x);
    let n = s.len() as int;
    assert forall|i: int, j: int|
        0 <= i < j < s2.len() implies !(s2[i].type_id == s2[j].type_id) by {
        if j == n {
            if s2[i].type_id == x.type_id {
                assert(s[i].type_id == x.type_id);
                assert(res_has_entry(s, x.type_id));
            }
        }
    }
    assert forall|t: TypeInfo|
        res_has_entry(s2, t) == (res_has_entry(s, t) || t == x.type_id) by {
        if res_has_entry(s2, t) {
            let j = choose|j: int| 0 <= j < s2.len() && s2[j].type_id == t;
            if j < n {
                assert(s[j].type_id == t);
            }
        }
        if res_has_entry(s, t) {
            let j = choose|j: int| 0 <= j < s.len() && s[j].type_id == t;
            assert(s2[j].type_id == t);
        }
        if t == x.type_id {
            assert(s2[n].type_id == t);
        }
    }
    lemma_res_index_unique(s2, x.type_id);
    assert(s2[n].type_id == x.type_id);
    assert(res_entry_index(s2, x.type_id) == n);
    assert forall|t: TypeInfo|
        res_has_entry(s, t) implies res_slot(s2, t) == res_slot(s, t) by {
        lemma_res_index_unique(s, t);
        lemma_res_index_unique(s2, t);
        let j = res_entry_index(s, t);
        assert(s2[j].type_id == t);
        assert(res_entry_index(s2, t) == j);
    }
}

proof fn lemma_res_remove<V>(s: Seq<ResourceEntry<V>>, i: int)
    requires
        res_entries_wf(s),
        0 <= i < s.len(),
    ensures
        res_entries_wf(s.remove(i)),
        forall|t: TypeInfo|
            res_has_entry(s.remove(i), t) == (res_has_entry(s, t) && t != s[i].type_id),
        forall|t: TypeInfo|
            res_has_entry(s, t) && t != s[i].type_id ==> res_slot(s.remove(i), t) == res_slot(s, t),
{
    let s2 = s.remove(i);
    assert forall|t: TypeInfo|
        res_has_entry(s2, t) == (res_has_entry(s, t) && t != s[i].type_id) by {
        if res_has_entry(s2, t) {
            let j = choose|j: int| 0 <= j < s2.len() && s2[j].type_id == t;
            let j0: int = if j < i { j } else { j + 1 };
            assert(s[j0].type_id == t);
            if t == s[i].type_id {
                if j0 < i {
                    assert(!(s[j0].type_id == s[i].type_id));
                } else {
                    assert(!(s[i].type_id == s[j0].type_id));
                }
            }
        }
        if res_has_entry(s, t) && t != s[i].type_id {
            let j = choose|j: int| 0 <= j < s.len() && s[j].type_id == t;
            if j < i {
                assert(s2[j].type_id == t);
            } else {
                assert(s2[j - 1].type_id == t);
            }
        }
    }
    assert forall|t: TypeInfo|
        res_has_entry(s, t) && t != s[i].type_id implies res_slot(s2, t) == res_slot(s, t) by {
        lemma_res_index_unique(s, t);
        lemma_res_index_unique(s2, t);
        let j = res_entry_index(s, t);
        assert(j != i);
        let j2: int = if j < i { j } else { j - 1 };
        assert(s2[j2].type_id == t);
        assert(res_entry_index(s2, t) == j2);
    }
}

/// The resource store.
pub struct Resources<V> {
    entries: Vec<ResourceEntry<V>>,
}

/// The effect of a resource insert, mirroring the component store's insert
/// discipline keyed on the tag alone.
pub open spec fn res_insert_effect<V>(
    pre: Resources<V>,
    post: Resources<V>,
    resource: DynComponent<V>,
    r: InsertOutcome<V>,
) -> bool {
    let t = resource.type_id;
    &&& (!pre.spec_contains(t) ==> r is Fresh)
    &&& (pre.spec_contains(t) && pre.spec_slot(t) is Owned ==> r == InsertOutcome::<V>::Replaced(
        pre.spec_slot(t)->Owned_0,
    ))
    &&& (pre.spec_contains(t) && !(pre.spec_slot(t) is Owned) ==> r == InsertOutcome::<V>::Busy(
        resource,
    ) && post.spec_entries() == pre.spec_entries())
    &&& (r is Fresh || r is Replaced ==> {
        &&& post.spec_slot(t) == LoanStorage::Owned(resource.component)
        &&& forall|t2: TypeInfo| post.spec_contains(t2) == (pre.spec_contains(t2) || t2 == t)
        &&& forall|t2: TypeInfo|
            pre.spec_contains(t2) && t2 != t ==> post.spec_slot(t2) == pre.spec_slot(t2)
    })
}

/// The effect of a resource remove.
pub open spec fn res_remove_effect<V>(
    pre: Resources<V>,
    post: Resources<V>,
    type_id: TypeInfo,
    r: RemoveOutcome<V>,
) -> bool {
    &&& (!pre.spec_contains(type_id) ==> r is NotFound && post.spec_entries()
        == pre.spec_entries())
    &&& (pre.spec_contains(type_id) && !(pre.spec_slot(type_id) is Owned) ==> r is Busy
        && post.spec_entries() == pre.spec_entries())
    &&& (pre.spec_contains(type_id) && pre.spec_slot(type_id) is Owned ==> {
        &&& r == RemoveOutcome::<V>::Removed(pre.spec_slot(type_id)->Owned_0)
        &&& forall|t2: TypeInfo|
            post.spec_contains(t2) == (pre.spec_contains(t2) && t2 != type_id)
        &&& forall|t2: TypeInfo|
            pre.spec_contains(t2) && t2 != type_id ==> post.spec_slot(t2) == pre.spec_slot(t2)
    })
}

/// The effect of a shared checkout of a resource.
pub open spec fn res_get_effect<V>(
    pre: Resources<V>,
    post: Resources<V>,
    type_id: TypeInfo,
    r: SharedGrant,
) -> bool {
    &&& (!pre.spec_contains(type_id) ==> r is NotFound && post.spec_entries()
        == pre.spec_entries())
    &&& (pre.spec_contains(type_id) && !pre.spec_slot(type_id).can_checkout_shared() ==> r is Busy
        && post.spec_entries() == pre.spec_entries())
    &&& (pre.spec_contains(type_id) && pre.spec_slot(type_id).can_checkout_shared() ==> {
        &&& r is Granted
        &&& post.spec_slot(type_id) == LoanStorage::Loan(
            pre.spec_slot(type_id).readable_value()->Some_0,
            (pre.spec_slot(type_id).spec_share_count() + 1) as u64,
        )
        &&& forall|t2: TypeInfo| post.spec_contains(t2) == pre.spec_contains(t2)
        &&& forall|t2: TypeInfo|
            pre.spec_contains(t2) && t2 != type_id ==> post.spec_slot(t2) == pre.spec_slot(t2)
    })
}

/// The effect of the exclusive checkout of a resource.
pub open spec fn res_get_mut_effect<V>(
    pre: Resources<V>,
    post: Resources<V>,
    type_id: TypeInfo,
    r: ExclusiveGrant<V>,
) -> bool {
    &&& (!pre.spec_contains(type_id) ==> r is NotFound && post.spec_entries()
        == pre.spec_entries())
    &&& (pre.spec_contains(type_id) && !(pre.spec_slot(type_id) is Owned) ==> r is Busy
        && post.spec_entries() == pre.spec_entries())
    &&& (pre.spec_contains(type_id) && pre.spec_slot(type_id) is Owned ==> {
        &&& r == ExclusiveGrant::<V>::Granted(pre.spec_slot(type_id)->Owned_0)
        &&& post.spec_slot(type_id) is LoanMut
        &&& forall|t2: TypeInfo| post.spec_contains(t2) == pre.spec_contains(t2)
        &&& forall|t2: TypeInfo|
            pre.spec_contains(t2) && t2 != type_id ==> post.spec_slot(t2) == pre.spec_slot(t2)
    })
}

/// The effect of ending one shared checkout of a resource.
pub open spec fn res_release_shared_effect<V>(
    pre: Resources<V>,
    post: Resources<V>,
    type_id: TypeInfo,
) -> bool {
    &&& (pre.spec_slot(type_id).spec_share_count() > 1 ==> post.spec_slot(type_id)
        == LoanStorage::Loan(
        pre.spec_slot(type_id).readable_value()->Some_0,
        (pre.spec_slot(type_id).spec_share_count() - 1) as u64,
    ))
    &&& (pre.spec_slot(type_id).spec_share_count() <= 1 ==> post.spec_slot(type_id)
        == LoanStorage::Owned(pre.spec_slot(type_id).readable_value()->Some_0))
    &&& forall|t2: TypeInfo| post.spec_contains(t2) == pre.spec_contains(t2)
    &&& forall|t2: TypeInfo|
        pre.spec_contains(t2) && t2 != type_id ==> post.spec_slot(t2) == pre.spec_slot(t2)
}

/// The effect of returning the exclusively checked-out resource.
pub open spec fn res_return_exclusive_effect<V>(
    pre: Resources<V>,
    post: Resources<V>,
    type_id: TypeInfo,
    value: V,
) -> bool {
    &&& post.spec_slot(type_id) == LoanStorage::Owned(value)
    &&& forall|t2: TypeInfo| post.spec_contains(t2) == pre.spec_contains(t2)
    &&& forall|t2: TypeInfo|
        pre.spec_contains(t2) && t2 != type_id ==> post.spec_slot(t2) == pre.spec_slot(t2)
}

impl<V> Resources<V> {

    /// The entry list itself; the other spec functions are views of it.
    pub closed spec fn spec_entries(&self) -> Seq<ResourceEntry<V>> {
        self.entries@
    }

    pub open spec fn wf(&self) -> bool {
        res_entries_wf(self.spec_entries())
    }

    /// Whether a slot exists for tag `t`, whatever its checkout state. A
    /// function of `spec_entries()` alone, so equal entry lists agree on it
    /// everywhere.
    pub open spec fn spec_contains(&self, t: TypeInfo) -> bool {
        res_has_entry(self.spec_entries(), t)
    }

    /// The slot for tag `t`; meaningful when `spec_contains(t)`. A function
    /// of `spec_entries()` alone.
    pub open spec fn spec_slot(&self, t: TypeInfo) -> LoanStorage<V> {
        res_slot(self.spec_entries(), t)
    }

    /// The value a reader would see for tag `t` right now.
    pub open spec fn read_value(&self, t: TypeInfo) -> Option<V> {
        if self.spec_contains(t) {
            self.spec_slot(t).readable_value()
        } else {
            None
        }
    }

    pub fn new() -> (r: Resources<V>)
        ensures
            r.wf(),
            forall|t: TypeInfo| !r.spec_contains(t),
    {
        Resources { entries: Vec::new() }
    }

    fn find(&self, type_id: TypeInfo) -> (r: Option<usize>)
        ensures
            match r {
                Some(i) => i < self.entries@.len() && self.entries@[i as int].type_id == type_id,
                None => !res_has_entry(self.entries@, type_id),
            },
    {
        let mut i: usize = 0;
        while i < self.entries.len()
            invariant
                0 <= i <= self.entries@.len(),
                forall|k: int| 0 <= k < i ==> !(#[trigger] self.entries@[k].type_id == type_id),
            decreases self.entries@.len() - i,
        {
            if self.entries[i].type_id == type_id {
                return Some(i);
            }
            i = i + 1;
        }
        None
    }

    /// Creates or replaces the resource of `resource.type_id`, returning the
    /// previous value if there was one; `Busy` while the old slot is checked
    /// out.
    pub fn insert(&mut self, resource: DynComponent<V>) -> (r: InsertOutcome<V>)
        requires
            old(self).wf(),
        ensures
            final(self).wf(),
            res_insert_effect(*old(self), *final(self), resource, r),
    {
        let type_id = resource.type_id;
        match self.find(type_id) {
            None => {
                let entry = ResourceEntry { type_id, slot: LoanStorage::new(resource.component) };
                proof {
                    lemma_res_push(self.entries@, entry);
                }
                self.entries.push(entry);
                InsertOutcome::Fresh
            }
            Some(i) => {
                proof {
                    lemma_res_index_unique(self.entries@, type_id);
                }
                let ghost s0 = self.entries@;
                let mut entry = self.entries.remove(i);
                match entry.slot.checkout_exclusive() {
                    Some(old_value) => {
                        entry.slot.return_exclusive(resource.component);
                        self.entries.insert(i, entry);
                        proof {
                            assert(self.entries@ =~= s0.update(i as int, entry));
                            lemma_res_update(s0, i as int, entry);
                        }
                        InsertOutcome::Replaced(old_value)
                    }
                    None => {
                        self.entries.insert(i, entry);
                        proof {
                            assert(self.entries@ =~= s0);
                        }
                        InsertOutcome::Busy(resource)
                    }
                }
            }
        }
    }

    /// Deletes the slot for `type_id` and returns its value; `Busy` while a
    /// checkout is outstanding.
    pub fn remove(&mut self, type_id: TypeInfo) -> (r: RemoveOutcome<V>)
        requires
            old(self).wf(),
        ensures
            final(self).wf(),
            res_remove_effect(*old(self), *final(self), type_id, r),
    {
        match self.find(type_id) {
            None => RemoveOutcome::NotFound,
            Some(i) => {
                proof {
                    lemma_res_index_unique(self.entries@, type_id);
                }
                let ghost s0 = self.entries@;
                let mut entry = self.entries.remove(i);
                match entry.slot.checkout_exclusive() {
                    Some(value) => {
                        proof {
                            lemma_res_remove(s0, i as int);
                        }
                        RemoveOutcome::Removed(value)
                    }
                    None => {
                        self.entries.insert(i, entry);
                        proof {
                            assert(self.entries@ =~= s0);
                        }
                        RemoveOutcome::Busy
                    }
                }
            }
        }
    }

    /// Whether a resource of tag `type_id` exists, whatever its state.
    pub fn contains(&self, type_id: TypeInfo) -> (r: bool)
        ensures
            r == self.spec_contains(type_id),
    {
        match self.find(type_id) {
            Some(_) => true,
            None => false,
        }
    }

    /// Requests a shared checkout of the resource of tag `type_id`.
    pub fn get(&mut self, type_id: TypeInfo) -> (r: SharedGrant)
        requires
            old(self).wf(),
        ensures
            final(self).wf(),
            res_get_effect(*old(self), *final(self), type_id, r),
    {
        match self.find(type_id) {
            None => SharedGrant::NotFound,
            Some(i) => {
                proof {
                    lemma_res_index_unique(self.entries@, type_id);
                }
                let ghost s0 = self.entries@;
                let mut entry = self.entries.remove(i);
                match entry.slot.checkout_shared() {
                    Some(loan) => {
                        self.entries.insert(i, entry);
                        proof {
                            assert(self.entries@ =~= s0.update(i as int, entry));
                            lemma_res_update(s0, i as int, entry);
                        }
                        SharedGrant::Granted(loan)
                    }
                    None => {
                        self.entries.insert(i, entry);
                        proof {
                            assert(self.entries@ =~= s0);
                        }
                        SharedGrant::Busy
                    }
                }
            }
        }
    }

    /// Requests the exclusive checkout of the resource of tag `type_id`.
    pub fn get_mut(&mut self, type_id: TypeInfo) -> (r: ExclusiveGrant<V>)
        requires
            old(self).wf(),
        ensures
            final(self).wf(),
            res_get_mut_effect(*old(self), *final(self), type_id, r),
    {
        match self.find(type_id) {
            None => ExclusiveGrant::NotFound,
            Some(i) => {
                proof {
                    lemma_res_index_unique(self.entries@, type_id);
                }
                let ghost s0 = self.entries@;
                let mut entry = self.entries.remove(i);
                match entry.slot.checkout_exclusive() {
                    Some(value) => {
                        self.entries.insert(i, entry);
                        proof {
                            assert(self.entries@ =~= s0.update(i as int, entry));
                            lemma_res_update(s0, i as int, entry);
                        }
                        ExclusiveGrant::Granted(value)
                    }
                    None => {
                        self.entries.insert(i, entry);
                        proof {
                            assert(self.entries@ =~= s0);
                        }
                        ExclusiveGrant::Busy
                    }
                }
            }
        }
    }

    /// Ends one shared checkout of the resource of tag `type_id`.
    pub fn release_shared(&mut self, type_id: TypeInfo)
        requires
            old(self).wf(),
            old(self).spec_contains(type_id),
            old(self).spec_slot(type_id) is Loan,
        ensures
            final(self).wf(),
            res_release_shared_effect(*old(self), *final(self), type_id),
    {
        match self.find(type_id) {
            None => {
                proof {
                    assert(false);
                }
            }
            Some(i) => {
                proof {
                    lemma_res_index_unique(self.entries@, type_id);
                }
                let ghost s0 = self.entries@;
                let mut entry = self.entries.remove(i);
                entry.slot.release_shared();
                self.entries.insert(i, entry);
                proof {
                    assert(self.entries@ =~= s0.update(i as int, entry));
                    lemma_res_update(s0, i as int, entry);
                }
            }
        }
    }

    /// Returns the exclusively checked-out resource of tag `type_id`.
    pub fn return_exclusive(&mut self, type_id: TypeInfo, value: V)
        requires
            old(self).wf(),
            old(self).spec_contains(type_id),
            old(self).spec_slot(type_id) is LoanMut,
        ensures
            final(self).wf(),
            res_return_exclusive_effect(*old(self), *final(self), type_id, value),
    {
        match self.find(type_id) {
            None => {
                proof {
                    assert(false);
                }
            }
            Some(i) => {
                proof {
                    lemma_res_index_unique(self.entries@, type_id);
                }
                let ghost s0 = self.entries@;
                let mut entry = self.entries.remove(i);
                entry.slot.return_exclusive(value);
                self.entries.insert(i, entry);
                proof {
                    assert(self.entries@ =~= s0.update(i as int, entry));
                    lemma_res_update(s0, i as int, entry);
                }
            }
        }
    }

    /// Reads the resource of tag `type_id` while it is in the store.
    pub fn read(&self, type_id: TypeInfo) -> (r: Option<&V>)
        requires
            self.wf(),
        ensures
            match r {
                Some(v) => self.read_value(type_id) == Some(*v),
                None => self.read_value(type_id) is None,
            },
    {
        match self.find(type_id) {
            None => None,
            Some(i) => {
                proof {
                    lemma_res_index_unique(self.entries@, type_id);
                }
                let entry = &self.entries[i];
                entry.slot.peek()
            }
        }
    }
}

impl<V> Default for Resources<V> {
    fn default() -> (r: Resources<V>)
        ensures
            r.wf(),
            forall|t: TypeInfo| !r.spec_contains(t),
    {
        Resources::new()
    }
}

} // verus!
