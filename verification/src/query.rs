//! The query engine: a query names a tuple of queryable kinds — the entity
//! identifier, a component read, or a component write — and computes, once
//! and eagerly at construction, the set of entities matching the whole
//! signature. The membership snapshot does not follow later store changes:
//! a caller wanting fresh membership reconstructs the query.

use vstd::prelude::*;

use crate::component::{vec_has_entity, Components};
use crate::entity::Entity;
use crate::util::TypeInfo;

verus! {

/// One queryable kind of a query signature.
pub enum QueryTerm {
    /// The entity identifier itself: matches every entity.
    EntityId,
    /// Read access to the component of this tag: matches entities holding
    /// it.
    Read(TypeInfo),
    /// Write access to the component of this tag: matches entities holding
    /// it (membership is computed against the current index either way; the
    /// distinction matters only for the access the iteration performs).
    Write(TypeInfo),
}

impl QueryTerm {
    /// The component tag this term filters on, if any.
    pub open spec fn filter_tag(self) -> Option<TypeInfo> {
        match self {
            QueryTerm::EntityId => None,
            QueryTerm::Read(t) => Some(t),
            QueryTerm::Write(t) => Some(t),
        }
    }
}

/// Whether entity `e` matches the signature `terms` against the component
/// store `c`: it is a known entity — one currently holding at least one
/// component, since the store keeps no empty entries — and holds every
/// component the terms filter on.
pub open spec fn entity_matches<V>(c: Components<V>, terms: Seq<QueryTerm>, e: Entity) -> bool {
    &&& exists|t: TypeInfo| c.spec_has(e, t)
    &&& forall|k: int|
        0 <= k < terms.len() ==> match (#[trigger] terms[k]).filter_tag() {
            Some(t) => c.spec_has(e, t),
            None => true,
        }
}

/// The entity set a query computed at construction.
pub struct QueryFilterState {
    pub entities_matching: Vec<Entity>,
}

/// A query: its signature and the membership snapshot taken when it was
/// constructed.
pub struct Query {
    pub terms: Vec<QueryTerm>,
    pub state: QueryFilterState,
}

impl Query {
    /// Whether `e` was in the snapshot.
    pub open spec fn spec_matched(&self, e: Entity) -> bool {
        vec_has_entity(self.state.entities_matching@, e)
    }

    /// Computes the matching entity set, eagerly: all known entities,
    /// narrowed by each term's filter. Later store changes do not affect
    /// the result.
    pub fn new<V>(components: &Components<V>, terms: Vec<QueryTerm>) -> (r: Query)
        requires
            components.wf(),
        ensures
            r.terms == terms,
            forall|e: Entity| r.spec_matched(e) == entity_matches(*components, terms@, e),
            forall|k: int, l: int|
                0 <= k < l < r.state.entities_matching@.len()
                    ==> r.state.entities_matching@[k] != r.state.entities_matching@[l],
    {
        let mut matching = components.entity_iter();
        let n = terms.len();
        let mut k: usize = 0;
        while k < n
            invariant
                0 <= k <= n,
                n == terms@.len(),
                components.wf(),
                forall|e: Entity|
                    vec_has_entity(matching@, e) == ((exists|t: TypeInfo| components.spec_has(e, t))
                        && forall|p: int|
                        0 <= p < k ==> match (#[trigger] terms@[p]).filter_tag() {
                            Some(t) => components.spec_has(e, t),
                            None => true,
                        }),
                forall|i: int, j: int| 0 <= i < j < matching@.len() ==> matching@[i] != matching@[j],
            decreases n - k,
        {
            let ghost m0 = matching@;
            match terms[k] {
                QueryTerm::EntityId => {
                    proof {
                        assert forall|e: Entity|
                            vec_has_entity(matching@, e) == ((exists|t: TypeInfo|
                                components.spec_has(e, t)) && forall|p: int|
                                0 <= p < k + 1 ==> match (#[trigger] terms@[p]).filter_tag() {
                                    Some(t) => components.spec_has(e, t),
                                    None => true,
                                }) by {
                            assert(terms@[k as int].filter_tag() is None);
                        }
                    }
                }
                QueryTerm::Read(t) => {
                    matching = retain_with_tag(components, matching, t);
                    proof {
                        lemma_filter_step(components, terms@, m0, matching@, k as int, t);
                    }
                }
                QueryTerm::Write(t) => {
                    matching = retain_with_tag(components, matching, t);
                    proof {
                        lemma_filter_step(components, terms@, m0, matching@, k as int, t);
                    }
                }
            }
            k = k + 1;
        }
        let r = Query { terms, state: QueryFilterState { entities_matching: matching } };
        r
    }

    /// Whether `e` matched at construction time.
    pub fn matches(&self, e: Entity) -> (r: bool)
        ensures
            r == self.spec_matched(e),
    {
        let v = &self.state.entities_matching;
        let mut i: usize = 0;
        while i < v.len()
            invariant
                0 <= i <= v@.len(),
                v == &self.state.entities_matching,
                forall|j: int| 0 <= j < i ==> v@[j] != e,
            decreases v@.len() - i,
        {
            if v[i] == e {
                return true;
            }
            i = i + 1;
        }
        false
    }

    /// The snapshot, for iteration: each matching entity exactly once.
    pub fn iter(&self) -> (r: &Vec<Entity>)
        ensures
            r == &self.state.entities_matching,
            forall|e: Entity| vec_has_entity(r@, e) == self.spec_matched(e),
    {
        &self.state.entities_matching
    }
}

/// The members of `v` that hold a component of tag `t`, in order, without
/// duplicates when `v` had none.
fn retain_with_tag<V>(components: &Components<V>, v: Vec<Entity>, t: TypeInfo) -> (r: Vec<Entity>)
    requires
        forall|i: int, j: int| 0 <= i < j < v@.len() ==> v@[i] != v@[j],
    ensures
        forall|e: Entity|
            vec_has_entity(r@, e) == (vec_has_entity(v@, e) && components.spec_has(e, t)),
        forall|i: int, j: int| 0 <= i < j < r@.len() ==> r@[i] != r@[j],
{
    let mut r: Vec<Entity> = Vec::new();
    let mut i: usize = 0;
    while i < v.len()
        invariant
            0 <= i <= v@.len(),
            forall|i2: int, j2: int| 0 <= i2 < j2 < v@.len() ==> v@[i2] != v@[j2],
            forall|e: Entity|
                vec_has_entity(r@, e) == (vec_has_entity(v@.subrange(0, i as int), e)
                    && components.spec_has(e, t)),
            forall|i2: int, j2: int| 0 <= i2 < j2 < r@.len() ==> r@[i2] != r@[j2],
        decreases v@.len() - i,
    {
        let ghost r0 = r@;
        let e = v[i];
        let keep = components.has(e, t);
        if keep {
            proof {
                if vec_has_entity(r@, e) {
                    assert(vec_has_entity(v@.subrange(0, i as int), e));
                    let j = choose|j: int|
                        0 <= j < v@.subrange(0, i as int).len() && v@.subrange(0, i as int)[j] == e;
                    assert(v@[j] == v@[i as int]);
                    assert(false);
                }
            }
            r.push(e);
        }
        i = i + 1;
        proof {
            let pre = v@.subrange(0, i - 1);
            let post = v@.subrange(0, i as int);
            assert(post =~= pre.push(e));
            assert forall|e2: Entity|
                vec_has_entity(r@, e2) == (vec_has_entity(post, e2) && components.spec_has(
                    e2,
                    t,
                )) by {
                if vec_has_entity(r@, e2) {
                    let j = choose|j: int| 0 <= j < r@.len() && r@[j] == e2;
                    if j < r0.len() {
                        assert(r0[j] == e2);
                        assert(vec_has_entity(r0, e2));
                        let p = choose|p: int| 0 <= p < pre.len() && pre[p] == e2;
                        assert(post[p] == e2);
                    } else {
                        assert(e2 == e);
                        assert(post[post.len() - 1] == e2);
                    }
                }
                if vec_has_entity(post, e2) && components.spec_has(e2, t) {
                    let j = choose|j: int| 0 <= j < post.len() && post[j] == e2;
                    if j < pre.len() {
                        assert(pre[j] == e2);
                        assert(vec_has_entity(pre, e2));
                        assert(vec_has_entity(r0, e2));
                        let p = choose|p: int| 0 <= p < r0.len() && r0[p] == e2;
                        assert(r@[p] == e2);
                    } else {
                        assert(e2 == e);
                        if keep {
                            assert(r@[r@.len() - 1] == e2);
                        }
                    }
                }
            }
        }
    }
    proof {
        assert(v@.subrange(0, v@.len() as int) =~= v@);
    }
    r
}

/// One narrowing step preserves the running characterization of the
/// matching set.
proof fn lemma_filter_step<V>(
    components: &Components<V>,
    terms: Seq<QueryTerm>,
    before: Seq<Entity>,
    after: Seq<Entity>,
    k: int,
    t: TypeInfo,
)
    requires
        0 <= k < terms.len(),
        terms[k].filter_tag() == Some(t),
        forall|e: Entity|
            vec_has_entity(before, e) == ((exists|t2: TypeInfo| components.spec_has(e, t2))
                && forall|p: int|
                0 <= p < k ==> match (#[trigger] terms[p]).filter_tag() {
                    Some(t2) => components.spec_has(e, t2),
                    None => true,
                }),
        forall|e: Entity|
            vec_has_entity(after, e) == (vec_has_entity(before, e) && components.spec_has(e, t)),
    ensures
        forall|e: Entity|
            vec_has_entity(after, e) == ((exists|t2: TypeInfo| components.spec_has(e, t2))
                && forall|p: int|
                0 <= p < k + 1 ==> match (#[trigger] terms[p]).filter_tag() {
                    Some(t2) => components.spec_has(e, t2),
                    None => true,
                }),
{
    assert forall|e: Entity|
        vec_has_entity(after, e) == ((exists|t2: TypeInfo| components.spec_has(e, t2))
            && forall|p: int|
            0 <= p < k + 1 ==> match (#[trigger] terms[p]).filter_tag() {
                Some(t2) => components.spec_has(e, t2),
                None => true,
            }) by {
        if vec_has_entity(after, e) {
            assert forall|p: int|
                0 <= p < k + 1 implies match (#[trigger] terms[p]).filter_tag() {
                Some(t2) => components.spec_has(e, t2),
                None => true,
            } by {
                if p == k {
                    assert(terms[k].filter_tag() == Some(t));
                    assert(components.spec_has(e, t));
                }
            }
        }
    }
}

/// Composes two per-kind result streams into one stream of pairs, stopping
/// as soon as either side is exhausted.
pub struct ZipStream<A, B> {
    pub left: Vec<A>,
    pub right: Vec<B>,
}

impl<A, B> ZipStream<A, B> {
    pub fn new(left: Vec<A>, right: Vec<B>) -> (r: ZipStream<A, B>)
        ensures
            r.left == left,
            r.right == right,
    {
        ZipStream { left, right }
    }

    /// The zipped pairs: as many as the shorter side, element by element.
    pub fn collect(self) -> (r: Vec<(A, B)>)
        ensures
            r@.len() == if self.left@.len() <= self.right@.len() {
                self.left@.len()
            } else {
                self.right@.len()
            },
            forall|i: int| 0 <= i < r@.len() ==> r@[i] == (self.left@[i], self.right@[i]),
    {
        let mut left = self.left;
        let mut right = self.right;
        let ghost l0 = left@;
        let ghost r0 = right@;
        let n = if left.len() <= right.len() {
            left.len()
        } else {
            right.len()
        };
        let mut out: Vec<(A, B)> = Vec::new();
        let mut i: usize = 0;
        while i < n
            invariant
                0 <= i <= n,
                n == if l0.len() <= r0.len() {
                    l0.len()
                } else {
                    r0.len()
                },
                left@ =~= l0.subrange(i as int, l0.len() as int),
                right@ =~= r0.subrange(i as int, r0.len() as int),
                out@.len() == i,
                forall|j: int| 0 <= j < i ==> out@[j] == (l0[j], r0[j]),
            decreases n - i,
        {
            let a = left.remove(0);
            let b = right.remove(0);
            proof {
                assert(a == l0[i as int]);
                assert(b == r0[i as int]);
                assert(left@ =~= l0.subrange(i + 1, l0.len() as int));
                assert(right@ =~= r0.subrange(i + 1, r0.len() as int));
            }
            out.push((a, b));
            i = i + 1;
        }
        out
    }
}

/// Query snapshot semantics: a query's membership is fixed when it is
/// constructed. An entity that held no component then — in particular a
/// freshly allocated one — is not in the snapshot, so iterating the query
/// after such an entity gains components still does not include it.
pub proof fn lemma_query_snapshot<V>(c: Components<V>, terms: Seq<QueryTerm>, q: Query, e: Entity)
    requires
        forall|e2: Entity| q.spec_matched(e2) == entity_matches(c, terms, e2),
        forall|t: TypeInfo| !c.spec_has(e, t),
    ensures
        !q.spec_matched(e),
{
}

} // verus!
