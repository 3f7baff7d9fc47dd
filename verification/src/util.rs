//! Type tags and small tag collections.
//!
//! Everywhere the store needs type erasure it keys values by a stable per-type
//! identifier. The identifier is an explicit `u64` chosen by the embedding
//! program (for a tagged-union payload, the variant's discriminant works);
//! nothing here depends on how the tags were picked, only on their equality.

use vstd::prelude::*;

verus! {

/// A stable identifier for a concrete data type, used as a map key wherever
/// values of several types share one store.
#[derive(Clone, Copy, PartialEq, Eq, Structural, Hash, Debug)]
pub struct TypeInfo {
    pub type_id: u64,
}

impl TypeInfo {
    /// The tag for the type that the caller's identifier `type_id` stands for.
    pub fn of(type_id: u64) -> (r: TypeInfo)
        ensures
            r.type_id == type_id,
    {
        TypeInfo { type_id }
    }
}

/// The trivial hash state used for tag keys: a tag is already a well-spread
/// `u64`, so hashing it is the identity.
#[derive(Default)]
pub struct TypeIdHasher {
    state: u64,
}

impl TypeIdHasher {
    /// The hash state accumulated so far.
    pub closed spec fn spec_state(&self) -> u64 {
        self.state
    }

    pub fn new() -> (r: TypeIdHasher)
        ensures
            r.spec_state() == 0,
    {
        TypeIdHasher { state: 0 }
    }

    pub fn write_u64(&mut self, i: u64)
        ensures
            final(self).spec_state() == i,
    {
        self.state = i;
    }

    pub fn finish(&self) -> (r: u64)
        ensures
            r == self.spec_state(),
    {
        self.state
    }
}

/// Whether some element of `s` carries the tag `t`.
pub open spec fn seq_has_tag(s: Seq<TypeInfo>, t: u64) -> bool {
    exists|i: int| 0 <= i < s.len() && s[i].type_id == t
}

/// A set of type tags, backed by a vector without duplicates.
pub struct TypeIdSet {
    items: Vec<TypeInfo>,
}

proof fn lemma_has_tag_push(s: Seq<TypeInfo>, x: TypeInfo, t: u64)
    ensures
        seq_has_tag(s.push(x), t) == (seq_has_tag(s, t) || x.type_id == t),
{
    if seq_has_tag(s.push(x), t) {
        let i = choose|i: int| 0 <= i < s.push(x).len() && s.push(x)[i].type_id == t;
        if i < s.len() {
            assert(s[i].type_id == t);
        }
    }
    if seq_has_tag(s, t) {
        let i = choose|i: int| 0 <= i < s.len() && s[i].type_id == t;
        assert(s.push(x)[i].type_id == t);
    }
    if x.type_id == t {
        assert(s.push(x)[s.len() as int].type_id == t);
    }
}

proof fn lemma_has_tag_remove(s: Seq<TypeInfo>, at: int, t: u64)
    requires
        0 <= at < s.len(),
        forall|i: int, j: int| 0 <= i < j < s.len() ==> s[i].type_id != s[j].type_id,
    ensures
        seq_has_tag(s.remove(at), t) == (seq_has_tag(s, t) && s[at].type_id != t),
{
    let s2 = s.remove(at);
    if seq_has_tag(s2, t) {
        let i = choose|i: int| 0 <= i < s2.len() && s2[i].type_id == t;
        let j: int = if i < at { i } else { i + 1 };
        assert(s[j].type_id == t);
        assert(s[at].type_id != t);
    }
    if seq_has_tag(s, t) && s[at].type_id != t {
        let i = choose|i: int| 0 <= i < s.len() && s[i].type_id == t;
        if i < at {
            assert(s2[i].type_id == t);
        } else {
            assert(s2[i - 1].type_id == t);
        }
    }
}

impl TypeIdSet {
    /// The mathematical set of tags held.
    pub closed spec fn to_set(&self) -> Set<u64> {
        Set::new(|t: u64| seq_has_tag(self.items@, t))
    }

    pub closed spec fn spec_contains(&self, t: u64) -> bool {
        seq_has_tag(self.items@, t)
    }

    /// Well-formed: no tag occurs twice in the backing vector. Every
    /// constructor establishes this and every operation preserves it.
    pub closed spec fn wf(&self) -> bool {
        forall|i: int, j: int|
            0 <= i < j < self.items@.len() ==> self.items@[i].type_id != self.items@[j].type_id
    }

    pub fn new() -> (r: TypeIdSet)
        ensures
            r.wf(),
            r.to_set() == Set::<u64>::empty(),
    {
        let r = TypeIdSet { items: Vec::new() };
        proof {
            assert(r.to_set() =~= Set::<u64>::empty());
        }
        r
    }

    pub fn contains_type(&self, t: TypeInfo) -> (r: bool)
        ensures
            r == self.spec_contains(t.type_id),
    {
        let mut i: usize = 0;
        while i < self.items.len()
            invariant
                0 <= i <= self.items@.len(),
                forall|k: int| 0 <= k < i ==> self.items@[k].type_id != t.type_id,
            decreases self.items@.len() - i,
        {
            if self.items[i].type_id == t.type_id {
                return true;
            }
            i = i + 1;
        }
        false
    }

    /// Adds `t`; reports whether it was new.
    pub fn insert_for(&mut self, t: TypeInfo) -> (fresh: bool)
        requires
            old(self).wf(),
        ensures
            final(self).wf(),
            fresh == !old(self).spec_contains(t.type_id),
            final(self).to_set() == old(self).to_set().insert(t.type_id),
    {
        let found = self.contains_type(t);
        if !found {
            self.items.push(t);
            proof {
                assert forall|u: u64| true implies seq_has_tag(self.items@, u) == (seq_has_tag(
                    old(self).items@,
                    u,
                ) || t.type_id == u) by {
                    lemma_has_tag_push(old(self).items@, t, u);
                }
                assert(self.to_set() =~= old(self).to_set().insert(t.type_id));
            }
            true
        } else {
            proof {
                assert(self.to_set() =~= old(self).to_set().insert(t.type_id));
            }
            false
        }
    }

    /// Removes `t`; reports whether it was present.
    pub fn remove_for(&mut self, t: TypeInfo) -> (was_there: bool)
        requires
            old(self).wf(),
        ensures
            final(self).wf(),
            was_there == old(self).spec_contains(t.type_id),
            final(self).to_set() == old(self).to_set().remove(t.type_id),
    {
        let mut i: usize = 0;
        while i < self.items.len()
            invariant
                0 <= i <= self.items@.len(),
                forall|k: int| 0 <= k < i ==> self.items@[k].type_id != t.type_id,
                self.wf(),
                *self == *old(self),
            decreases self.items@.len() - i,
        {
            if self.items[i].type_id == t.type_id {
                self.items.remove(i);
                proof {
                    assert(seq_has_tag(old(self).items@, t.type_id)) by {
                        assert(old(self).items@[i as int].type_id == t.type_id);
                    }
                    assert forall|u: u64| true implies seq_has_tag(self.items@, u) == (seq_has_tag(
                        old(self).items@,
                        u,
                    ) && u != t.type_id) by {
                        lemma_has_tag_remove(old(self).items@, i as int, u);
                    }
                    assert(self.to_set() =~= old(self).to_set().remove(t.type_id));
                }
                return true;
            }
            i = i + 1;
        }
        proof {
            assert(self.to_set() =~= old(self).to_set().remove(t.type_id));
        }
        false
    }

    /// The tags as a vector, each exactly once.
    pub fn iter_tags(&self) -> (r: Vec<TypeInfo>)
        requires
            self.wf(),
        ensures
            forall|t: u64| self.spec_contains(t) == seq_has_tag(r@, t),
            forall|i: int, j: int| 0 <= i < j < r@.len() ==> r@[i].type_id != r@[j].type_id,
    {
        let mut r: Vec<TypeInfo> = Vec::new();
        let mut i: usize = 0;
        while i < self.items.len()
            invariant
                0 <= i <= self.items@.len(),
                r@ =~= self.items@.subrange(0, i as int),
            decreases self.items@.len() - i,
        {
            r.push(self.items[i]);
            i = i + 1;
        }
        proof {
            assert(r@ =~= self.items@);
        }
        r
    }

    /// True when no tag of `self` is also a tag of `other`.
    pub fn is_disjoint(&self, other: &TypeIdSet) -> (r: bool)
        ensures
            r == self.to_set().disjoint(other.to_set()),
    {
        let mut i: usize = 0;
        while i < self.items.len()
            invariant
                0 <= i <= self.items@.len(),
                forall|k: int|
                    0 <= k < i ==> !other.spec_contains(#[trigger] self.items@[k].type_id),
            decreases self.items@.len() - i,
        {
            if other.contains_type(self.items[i]) {
                proof {
                    let t = self.items@[i as int].type_id;
                    assert(self.to_set().contains(t) && other.to_set().contains(t));
                }
                return false;
            }
            i = i + 1;
        }
        proof {
            assert forall|t: u64| self.to_set().contains(t) implies !other.to_set().contains(
                t,
            ) by {
                let k = choose|k: int| 0 <= k < self.items@.len() && self.items@[k].type_id == t;
                assert(!other.spec_contains(self.items@[k].type_id));
            }
        }
        true
    }

    /// Adds every tag of `other` to `self`.
    pub fn extend(&mut self, other: &TypeIdSet)
        requires
            old(self).wf(),
            other.wf(),
        ensures
            final(self).wf(),
            final(self).to_set() == old(self).to_set().union(other.to_set()),
    {
        let tags = other.iter_tags();
        let ghost orig = *self;
        let mut i: usize = 0;
        while i < tags.len()
            invariant
                0 <= i <= tags@.len(),
                orig == *old(self),
                forall|t: u64| other.spec_contains(t) == seq_has_tag(tags@, t),
                self.wf(),
                forall|t: u64| #[trigger] self.spec_contains(t) == (orig.spec_contains(t)
                    || seq_has_tag(tags@.subrange(0, i as int), t)),
            decreases tags@.len() - i,
        {
            let ghost prev = *self;
            let t = tags[i];
            self.insert_for(t);
            i = i + 1;
            proof {
                let pre = tags@.subrange(0, i - 1);
                let post = tags@.subrange(0, i as int);
                assert(post =~= pre.push(tags@[i - 1]));
                assert forall|u: u64| self.spec_contains(u) == (orig.spec_contains(u)
                    || seq_has_tag(post, u)) by {
                    lemma_has_tag_push(pre, tags@[i - 1], u);
                    assert(seq_has_tag(post, u) == (seq_has_tag(pre, u) || tags@[i
                        - 1].type_id == u));
                    assert(self.to_set() == prev.to_set().insert(tags@[i - 1].type_id));
                    assert(self.to_set().contains(u) == (prev.to_set().contains(u) || u == tags@[i
                        - 1].type_id));
                    assert(self.to_set().contains(u) == self.spec_contains(u));
                    assert(prev.to_set().contains(u) == prev.spec_contains(u));
                    assert(prev.spec_contains(u) == (orig.spec_contains(u) || seq_has_tag(pre, u)));
                }
            }
        }
        proof {
            assert(tags@.subrange(0, tags@.len() as int) =~= tags@);
            assert forall|t: u64| self.spec_contains(t) == (old(self).spec_contains(t)
                || other.spec_contains(t)) by {
                assert(seq_has_tag(tags@.subrange(0, tags@.len() as int), t) == seq_has_tag(
                    tags@,
                    t,
                ));
            }
            assert forall|t: u64| self.to_set().contains(t) == old(self).to_set().union(
                other.to_set(),
            ).contains(t) by {
                assert(self.to_set().contains(t) == self.spec_contains(t));
                assert(old(self).to_set().contains(t) == old(self).spec_contains(t));
                assert(other.to_set().contains(t) == other.spec_contains(t));
            }
            assert(self.to_set() =~= old(self).to_set().union(other.to_set()));
        }
    }
}

/// Membership in the mathematical set is membership in the tag set.
pub broadcast proof fn lemma_tag_set_contains(s: &TypeIdSet, t: u64)
    ensures
        #[trigger] s.to_set().contains(t) == s.spec_contains(t),
{
}

impl Clone for TypeIdSet {
    fn clone(&self) -> (r: TypeIdSet)
        ensures
            r.wf() == self.wf(),
            r.to_set() == self.to_set(),
    {
        let mut items: Vec<TypeInfo> = Vec::new();
        let mut i: usize = 0;
        while i < self.items.len()
            invariant
                0 <= i <= self.items@.len(),
                items@ =~= self.items@.subrange(0, i as int),
            decreases self.items@.len() - i,
        {
            items.push(self.items[i]);
            i = i + 1;
        }
        proof {
            assert(items@ =~= self.items@);
        }
        let r = TypeIdSet { items };
        proof {
            assert(r.to_set() =~= self.to_set());
        }
        r
    }
}

} // verus!
