//! Handler access metadata and conflict detection.
//!
//! Each handler declares the resource types it reads and writes. Two access
//! declarations are compatible when neither writes what the other touches;
//! a composite parameter list with an internal conflict could deadlock its
//! own handler, so composition fails fast.

use vstd::prelude::*;

use crate::resource::Resources;
use crate::util::{TypeIdSet, TypeInfo};

verus! {

broadcast use crate::util::lemma_tag_set_contains;

/// The declared access of one handler (or one handler parameter): which
/// resource types it reads and which it writes.
pub struct EventHandlerMeta {
    pub resources_read: TypeIdSet,
    pub resources_written: TypeIdSet,
}

impl EventHandlerMeta {
    pub open spec fn wf(&self) -> bool {
        self.resources_read.wf() && self.resources_written.wf()
    }

    /// The tags read.
    pub open spec fn reads(&self) -> Set<u64> {
        self.resources_read.to_set()
    }

    /// The tags written.
    pub open spec fn writes(&self) -> Set<u64> {
        self.resources_written.to_set()
    }

    /// Every tag touched: the handler's precondition is that all of them
    /// exist as resources.
    pub open spec fn required(&self) -> Set<u64> {
        self.reads().union(self.writes())
    }

    /// Compatible: neither side writes anything the other touches. Two
    /// compatible accesses can be fetched concurrently.
    pub open spec fn spec_compatible(&self, other: &EventHandlerMeta) -> bool {
        &&& self.reads().disjoint(other.writes())
        &&& self.writes().disjoint(other.reads())
        &&& self.writes().disjoint(other.writes())
    }

    /// Whether every required resource exists in `resources`.
    pub open spec fn spec_can_run<V>(&self, resources: &Resources<V>) -> bool {
        forall|t: u64|
            self.required().contains(t) ==> resources.spec_contains(TypeInfo { type_id: t })
    }

    pub fn new() -> (r: EventHandlerMeta)
        ensures
            r.wf(),
            r.reads() == Set::<u64>::empty(),
            r.writes() == Set::<u64>::empty(),
    {
        EventHandlerMeta { resources_read: TypeIdSet::new(), resources_written: TypeIdSet::new() }
    }

    /// Declares a shared read of the resource type `t`.
    pub fn res(self, t: TypeInfo) -> (r: EventHandlerMeta)
        requires
            self.wf(),
        ensures
            r.wf(),
            r.reads() == self.reads().insert(t.type_id),
            r.writes() == self.writes(),
    {
        let mut this = self;
        this.resources_read.insert_for(t);
        this
    }

    /// Declares an exclusive write of the resource type `t`.
    pub fn res_mut(self, t: TypeInfo) -> (r: EventHandlerMeta)
        requires
            self.wf(),
        ensures
            r.wf(),
            r.reads() == self.reads(),
            r.writes() == self.writes().insert(t.type_id),
    {
        let mut this = self;
        this.resources_written.insert_for(t);
        this
    }

    /// Every tag this handler requires to exist, reads before writes, each
    /// side without duplicates.
    pub fn required_resources(&self) -> (r: Vec<TypeInfo>)
        requires
            self.wf(),
        ensures
            forall|t: u64|
                self.required().contains(t) == exists|k: int|
                    0 <= k < r@.len() && r@[k].type_id == t,
    {
        let mut r = self.resources_read.iter_tags();
        let more = self.resources_written.iter_tags();
        let ghost reads_part = r@;
        let mut i: usize = 0;
        while i < more.len()
            invariant
                0 <= i <= more@.len(),
                r@ =~= reads_part + more@.subrange(0, i as int),
            decreases more@.len() - i,
        {
            r.push(more[i]);
            i = i + 1;
        }
        proof {
            assert(r@ =~= reads_part + more@);
            assert forall|t: u64|
                self.required().contains(t) == exists|k: int|
                    0 <= k < r@.len() && r@[k].type_id == t by {
                if self.required().contains(t) {
                    if self.reads().contains(t) {
                        let k = choose|k: int|
                            0 <= k < reads_part.len() && reads_part[k].type_id == t;
                        assert(r@[k].type_id == t);
                    } else {
                        let k = choose|k: int| 0 <= k < more@.len() && more@[k].type_id == t;
                        assert(r@[reads_part.len() + k].type_id == t);
                    }
                }
                if exists|k: int| 0 <= k < r@.len() && r@[k].type_id == t {
                    let k = choose|k: int| 0 <= k < r@.len() && r@[k].type_id == t;
                    if k < reads_part.len() {
                        assert(reads_part[k].type_id == t);
                        assert(crate::util::seq_has_tag(reads_part, t));
                        assert(self.reads().contains(t));
                    } else {
                        assert(more@[k - reads_part.len()].type_id == t);
                        assert(crate::util::seq_has_tag(more@, t));
                        assert(self.writes().contains(t));
                    }
                }
            }
        }
        r
    }

    /// Decides compatibility exactly as [`EventHandlerMeta::spec_compatible`]
    /// states it.
    pub fn is_compatible(&self, other: &EventHandlerMeta) -> (r: bool)
        ensures
            r == self.spec_compatible(other),
    {
        let a = self.resources_read.is_disjoint(&other.resources_written);
        let b = self.resources_written.is_disjoint(&other.resources_read);
        let c = self.resources_written.is_disjoint(&other.resources_written);
        a && b && c
    }

    /// The union of two access declarations.
    pub fn combine(self, rhs: &EventHandlerMeta) -> (r: EventHandlerMeta)
        requires
            self.wf(),
            rhs.wf(),
        ensures
            r.wf(),
            r.reads() == self.reads().union(rhs.reads()),
            r.writes() == self.writes().union(rhs.writes()),
    {
        let mut this = self;
        this.resources_read.extend(&rhs.resources_read);
        this.resources_written.extend(&rhs.resources_written);
        this
    }

    /// Whether every resource this handler requires exists right now. The
    /// dispatch loop evaluates this immediately before invoking the handler
    /// and silently skips the invocation when it is false.
    pub fn can_run<V>(&self, resources: &Resources<V>) -> (r: bool)
        requires
            self.wf(),
        ensures
            r == self.spec_can_run(resources),
    {
        let required = self.required_resources();
        let mut i: usize = 0;
        while i < required.len()
            invariant
                0 <= i <= required@.len(),
                forall|t: u64|
                    self.required().contains(t) == exists|k: int|
                        0 <= k < required@.len() && required@[k].type_id == t,
                forall|k: int|
                    0 <= k < i ==> resources.spec_contains(
                        TypeInfo { type_id: (#[trigger] required@[k]).type_id },
                    ),
            decreases required@.len() - i,
        {
            if !resources.contains(required[i]) {
                proof {
                    let t = required@[i as int].type_id;
                    assert(self.required().contains(t));
                    assert(TypeInfo { type_id: t } == required@[i as int]);
                }
                return false;
            }
            i = i + 1;
        }
        proof {
            assert forall|t: u64| self.required().contains(t) implies resources.spec_contains(
                TypeInfo { type_id: t },
            ) by {
                let k = choose|k: int| 0 <= k < required@.len() && required@[k].type_id == t;
                assert(resources.spec_contains(TypeInfo { type_id: required@[k].type_id }));
            }
        }
        true
    }
}

impl Clone for EventHandlerMeta {
    fn clone(&self) -> (r: EventHandlerMeta)
        ensures
            r.wf() == self.wf(),
            r.reads() == self.reads(),
            r.writes() == self.writes(),
    {
        EventHandlerMeta {
            resources_read: self.resources_read.clone(),
            resources_written: self.resources_written.clone(),
        }
    }
}

impl Default for EventHandlerMeta {
    /// A handler that declares no access at all.
    fn default() -> (r: EventHandlerMeta)
        ensures
            r.wf(),
            r.reads() == Set::<u64>::empty(),
            r.writes() == Set::<u64>::empty(),
    {
        EventHandlerMeta::new()
    }
}

/// Whether every pair among `metas` is compatible: the requirement for the
/// members of one handler's composite parameter list.
pub open spec fn all_pairs_compatible(metas: Seq<EventHandlerMeta>) -> bool {
    forall|i: int, j: int|
        0 <= i < j < metas.len() ==> (#[trigger] metas[i]).spec_compatible(#[trigger] &metas[j])
}

/// Composes the access declarations of one handler's parameter list,
/// verifying pairwise compatibility: the composite is the union of all
/// members, and composition fails exactly when two members conflict (such a
/// handler could deadlock itself, so it is rejected at registration time).
/// On failure the index of the first member conflicting with an earlier one
/// is reported.
pub fn combine_compatible(metas: &Vec<EventHandlerMeta>) -> (r: Result<EventHandlerMeta, usize>)
    requires
        forall|k: int| 0 <= k < metas@.len() ==> (#[trigger] metas@[k]).wf(),
    ensures
        match r {
            Ok(m) => {
                &&& all_pairs_compatible(metas@)
                &&& m.wf()
                &&& forall|t: u64|
                    m.reads().contains(t) == exists|k: int|
                        0 <= k < metas@.len() && (#[trigger] metas@[k]).reads().contains(t)
                &&& forall|t: u64|
                    m.writes().contains(t) == exists|k: int|
                        0 <= k < metas@.len() && (#[trigger] metas@[k]).writes().contains(t)
            },
            Err(i) => {
                &&& !all_pairs_compatible(metas@)
                &&& 0 < i < metas@.len()
                &&& exists|j: int| 0 <= j < i && !(#[trigger] metas@[j]).spec_compatible(&metas@[i as int])
            },
        },
{
    let mut acc = EventHandlerMeta::new();
    let mut i: usize = 0;
    while i < metas.len()
        invariant
            0 <= i <= metas@.len(),
            forall|k: int| 0 <= k < metas@.len() ==> (#[trigger] metas@[k]).wf(),
            acc.wf(),
            forall|t: u64|
                acc.reads().contains(t) == exists|k: int|
                    0 <= k < i && (#[trigger] metas@[k]).reads().contains(t),
            forall|t: u64|
                acc.writes().contains(t) == exists|k: int|
                    0 <= k < i && (#[trigger] metas@[k]).writes().contains(t),
            forall|k: int, l: int|
                0 <= k < l < i ==> (#[trigger] metas@[k]).spec_compatible(#[trigger] &metas@[l]),
        decreases metas@.len() - i,
    {
        let m = &metas[i];
        if !acc.is_compatible(m) {
            proof {
                assert(exists|j: int|
                    0 <= j < i && !(#[trigger] metas@[j]).spec_compatible(&metas@[i as int])) by {
                    if !acc.reads().disjoint(m.writes()) {
                        let t = choose|t: u64|
                            acc.reads().contains(t) && m.writes().contains(t);
                        let j = choose|j: int|
                            0 <= j < i && (#[trigger] metas@[j]).reads().contains(t);
                        assert(!metas@[j].spec_compatible(&metas@[i as int]));
                    } else if !acc.writes().disjoint(m.reads()) {
                        let t = choose|t: u64|
                            acc.writes().contains(t) && m.reads().contains(t);
                        let j = choose|j: int|
                            0 <= j < i && (#[trigger] metas@[j]).writes().contains(t);
                        assert(!metas@[j].spec_compatible(&metas@[i as int]));
                    } else {
                        let t = choose|t: u64|
                            acc.writes().contains(t) && m.writes().contains(t);
                        let j = choose|j: int|
                            0 <= j < i && (#[trigger] metas@[j]).writes().contains(t);
                        assert(!metas@[j].spec_compatible(&metas@[i as int]));
                    }
                }
                let j = choose|j: int|
                    0 <= j < i && !(#[trigger] metas@[j]).spec_compatible(&metas@[i as int]);
                assert(!all_pairs_compatible(metas@));
            }
            return Err(i);
        }
        let ghost acc0 = acc;
        acc = acc.combine(m);
        proof {
            assert forall|k: int, l: int|
                0 <= k < l < i + 1 implies (#[trigger] metas@[k]).spec_compatible(
                #[trigger] &metas@[l],
            ) by {
                if l == i as int {
                    assert(metas@[k].reads().disjoint(metas@[l].writes())) by {
                        if exists|t: u64|
                            metas@[k].reads().contains(t) && metas@[l].writes().contains(t) {
                            let t = choose|t: u64|
                                metas@[k].reads().contains(t) && metas@[l].writes().contains(t);
                            assert(acc0.reads().contains(t));
                        }
                    }
                    assert(metas@[k].writes().disjoint(metas@[l].reads())) by {
                        if exists|t: u64|
                            metas@[k].writes().contains(t) && metas@[l].reads().contains(t) {
                            let t = choose|t: u64|
                                metas@[k].writes().contains(t) && metas@[l].reads().contains(t);
                            assert(acc0.writes().contains(t));
                        }
                    }
                    assert(metas@[k].writes().disjoint(metas@[l].writes())) by {
                        if exists|t: u64|
                            metas@[k].writes().contains(t) && metas@[l].writes().contains(t) {
                            let t = choose|t: u64|
                                metas@[k].writes().contains(t) && metas@[l].writes().contains(t);
                            assert(acc0.writes().contains(t));
                        }
                    }
                }
            }
        }
        i = i + 1;
    }
    Ok(acc)
}

} // verus!

// === The handler graph's dispatch order ===
//
// Firing an event executes its handlers in batches: repeatedly take every
// node all of whose predecessors have already been emitted, emit them as one
// batch (they run concurrently), and continue. The specification below pins
// the result down: every node appears exactly once, and an edge's source is
// emitted in a strictly earlier batch than its target.

verus! {

/// Whether batch `i` of `b` holds node `x`.
pub open spec fn batch_contains(b: Seq<Seq<usize>>, i: int, x: usize) -> bool {
    0 <= i < b.len() && b[i].contains(x)
}

/// Whether node `x` is emitted anywhere in `b`.
pub open spec fn appears(b: Seq<Seq<usize>>, x: usize) -> bool {
    exists|i: int| batch_contains(b, i, x)
}

/// A correct dispatch order for `n` nodes under `edges`: every node in
/// exactly one batch, and every edge's source batched strictly before its
/// target.
pub open spec fn valid_batches(n: nat, edges: Seq<(usize, usize)>, b: Seq<Seq<usize>>) -> bool {
    &&& forall|x: usize| appears(b, x) == ((x as nat) < n)
    &&& forall|i: int, k: int, j: int, l: int|
        0 <= i < b.len() && 0 <= k < b[i].len() && 0 <= j < b.len() && 0 <= l < b[j].len() && (i
            != j || k != l) ==> #[trigger] b[i][k] != #[trigger] b[j][l]
    &&& forall|m: int, i: int, j: int|
        0 <= m < edges.len() && #[trigger] batch_contains(b, i, edges[m].0)
            && #[trigger] batch_contains(b, j, edges[m].1) ==> i < j
}

/// Whether some dispatch order exists. Equivalent to acyclicity of the edge
/// relation; the graph keeps this invariant by rejecting an edge that would
/// break it.
pub open spec fn schedulable(n: nat, edges: Seq<(usize, usize)>) -> bool {
    exists|b: Seq<Seq<usize>>| valid_batches(n, edges, b)
}

/// Whether `x` has a predecessor inside `set`.
pub open spec fn spec_has_pred_in(edges: Seq<(usize, usize)>, x: usize, set: Seq<usize>) -> bool {
    exists|m: int| 0 <= m < edges.len() && (#[trigger] edges[m]).1 == x && set.contains(edges[m].0)
}

/// A certificate that no dispatch order exists: a nonempty collection of
/// nodes each of which has a predecessor in the collection.
pub open spec fn stuck_set(edges: Seq<(usize, usize)>, s: Seq<usize>) -> bool {
    &&& s.len() > 0
    &&& forall|k: int| 0 <= k < s.len() ==> spec_has_pred_in(edges, #[trigger] s[k], s)
}

/// Every edge endpoint within range.
pub open spec fn edges_wf(n: nat, edges: Seq<(usize, usize)>) -> bool {
    forall|m: int|
        0 <= m < edges.len() ==> ((#[trigger] edges[m]).0 as nat) < n && (edges[m].1 as nat) < n
}

/// Greedy batching: from the second batch on, every emitted node has a
/// predecessor in the batch immediately before it — nothing is delayed past
/// the first batch in which it could run. Together with [`valid_batches`]
/// this pins down that handlers with no unresolved dependency run in the
/// same, earliest possible batch.
pub open spec fn batches_greedy(edges: Seq<(usize, usize)>, b: Seq<Seq<usize>>) -> bool {
    forall|i: int, k: int|
        1 <= i < b.len() && 0 <= k < b[i].len() ==> has_pred_in_batch(
            edges,
            #[trigger] b[i][k],
            b[i - 1],
        )
}

/// Whether `x` has a predecessor among the members of `batch`.
pub open spec fn has_pred_in_batch(edges: Seq<(usize, usize)>, x: usize, batch: Seq<usize>) -> bool {
    exists|m: int|
        0 <= m < edges.len() && (#[trigger] edges[m]).1 == x && batch.contains(edges[m].0)
}

/// A node with no incoming edge is dispatched in the very first batch.
pub proof fn lemma_unconstrained_runs_first(
    n: nat,
    edges: Seq<(usize, usize)>,
    b: Seq<Seq<usize>>,
    x: usize,
)
    requires
        valid_batches(n, edges, b),
        batches_greedy(edges, b),
        (x as nat) < n,
        forall|m: int| 0 <= m < edges.len() ==> (#[trigger] edges[m]).1 != x,
    ensures
        batch_contains(b, 0, x),
{
    assert(appears(b, x));
    let i = choose|i: int| batch_contains(b, i, x);
    if i >= 1 {
        let k = choose|k: int| 0 <= k < b[i].len() && b[i][k] == x;
        assert(has_pred_in_batch(edges, b[i][k], b[i - 1]));
        let m = choose|m: int|
            0 <= m < edges.len() && (#[trigger] edges[m]).1 == b[i][k] && b[i - 1].contains(
                edges[m].0,
            );
        assert(false);
    }
}

/// Topological dispatch: with an edge asking `target` to run after `a`, and
/// `a` and `c` unconstrained from above, every dispatch order the sweep can
/// produce starts `a` and `c` together in the first batch and `target` in a
/// strictly later one.
pub proof fn lemma_topological_dispatch(
    n: nat,
    edges: Seq<(usize, usize)>,
    b: Seq<Seq<usize>>,
    a: usize,
    target: usize,
    c: usize,
)
    requires
        valid_batches(n, edges, b),
        batches_greedy(edges, b),
        (a as nat) < n,
        (target as nat) < n,
        (c as nat) < n,
        edges.contains((a, target)),
        forall|m: int| 0 <= m < edges.len() ==> (#[trigger] edges[m]).1 != a,
        forall|m: int| 0 <= m < edges.len() ==> (#[trigger] edges[m]).1 != c,
    ensures
        batch_contains(b, 0, a),
        batch_contains(b, 0, c),
        forall|j: int| #[trigger] batch_contains(b, j, target) ==> j >= 1,
{
    lemma_unconstrained_runs_first(n, edges, b, a);
    lemma_unconstrained_runs_first(n, edges, b, c);
    let m = choose|m: int| 0 <= m < edges.len() && edges[m] == (a, target);
    assert forall|j: int| #[trigger] batch_contains(b, j, target) implies j >= 1 by {
        assert(batch_contains(b, 0, edges[m].0));
        assert(batch_contains(b, j, edges[m].1));
    }
}

/// The batch sequences of a batch vector.
pub open spec fn batches_view(b: Seq<Vec<usize>>) -> Seq<Seq<usize>> {
    b.map_values(|v: Vec<usize>| v@)
}

/// Whether some member of `s` is emitted in a batch before `bound`.
spec fn some_member_before(b: Seq<Seq<usize>>, s: Seq<usize>, bound: int) -> bool {
    exists|i: int, k: int| 0 <= i < bound && 0 <= k < s.len() && #[trigger] batch_contains(b, i, s[k])
}

/// The earliest batch holding a member of `s`.
proof fn lemma_least_member_batch(b: Seq<Seq<usize>>, s: Seq<usize>, bound: int) -> (r: int)
    requires
        some_member_before(b, s, bound),
    ensures
        0 <= r < bound,
        exists|k: int| 0 <= k < s.len() && #[trigger] batch_contains(b, r, s[k]),
        forall|i: int, k: int| 0 <= i < r && 0 <= k < s.len() ==> !#[trigger] batch_contains(b, i, s[k]),
    decreases bound,
{
    if some_member_before(b, s, bound - 1) {
        lemma_least_member_batch(b, s, bound - 1)
    } else {
        let (i, k) = choose|i: int, k: int|
            0 <= i < bound && 0 <= k < s.len() && #[trigger] batch_contains(b, i, s[k]);
        assert(i == bound - 1) by {
            if i < bound - 1 {
                assert(some_member_before(b, s, bound - 1));
            }
        }
        assert forall|i2: int, k2: int|
            0 <= i2 < bound - 1 && 0 <= k2 < s.len() implies !#[trigger] batch_contains(
            b,
            i2,
            s[k2],
        ) by {
            if batch_contains(b, i2, s[k2]) {
                assert(some_member_before(b, s, bound - 1));
            }
        }
        bound - 1
    }
}

/// A stuck set rules every dispatch order out: in any order, the earliest
/// batch holding a member of the set would have to come after the batch of
/// that member's predecessor — itself a member.
pub proof fn lemma_stuck_set_unschedulable(n: nat, edges: Seq<(usize, usize)>, s: Seq<usize>)
    requires
        stuck_set(edges, s),
        forall|k: int| 0 <= k < s.len() ==> ((#[trigger] s[k]) as nat) < n,
    ensures
        !schedulable(n, edges),
{
    if schedulable(n, edges) {
        let b = choose|b: Seq<Seq<usize>>| valid_batches(n, edges, b);
        assert(appears(b, s[0]));
        let i0 = choose|i: int| batch_contains(b, i, s[0]);
        assert(batch_contains(b, i0, s[0]));
        assert(some_member_before(b, s, b.len() as int));
        let r = lemma_least_member_batch(b, s, b.len() as int);
        let k = choose|k: int| 0 <= k < s.len() && #[trigger] batch_contains(b, r, s[k]);
        let x = s[k];
        assert(spec_has_pred_in(edges, x, s));
        let m = choose|m: int|
            0 <= m < edges.len() && (#[trigger] edges[m]).1 == x && s.contains(edges[m].0);
        let u = edges[m].0;
        let l = choose|l: int| 0 <= l < s.len() && s[l] == u;
        assert((u as nat) < n);
        assert(appears(b, u));
        let j = choose|j: int| batch_contains(b, j, u);
        assert(batch_contains(b, j, edges[m].0));
        assert(batch_contains(b, r, edges[m].1));
        assert(j < r);
        assert(batch_contains(b, j, s[l]));
        assert(false);
    }
}

/// Appending a batch: everything already emitted stays where it was, and the
/// new batch's members are emitted at the new index.
proof fn lemma_batches_push(b: Seq<Seq<usize>>, f: Seq<usize>)
    ensures
        forall|x: usize| appears(b.push(f), x) == (appears(b, x) || f.contains(x)),
        forall|i: int, x: usize|
            #[trigger] batch_contains(b.push(f), i, x) == (batch_contains(b, i, x) || (i
                == b.len() && f.contains(x))),
{
    assert forall|i: int, x: usize|
        #[trigger] batch_contains(b.push(f), i, x) == (batch_contains(b, i, x) || (i == b.len()
            && f.contains(x))) by {
        if 0 <= i < b.len() {
            assert(b.push(f)[i] == b[i]);
        } else if i == b.len() {
            assert(b.push(f)[i] == f);
        }
    }
    assert forall|x: usize| appears(b.push(f), x) == (appears(b, x) || f.contains(x)) by {
        if appears(b.push(f), x) {
            let i = choose|i: int| batch_contains(b.push(f), i, x);
            assert(batch_contains(b, i, x) || (i == b.len() && f.contains(x)));
        }
        if appears(b, x) {
            let i = choose|i: int| batch_contains(b, i, x);
            assert(batch_contains(b.push(f), i, x));
        }
        if f.contains(x) {
            assert(batch_contains(b.push(f), b.len() as int, x));
        }
    }
}

/// Whether `v` holds `x`.
fn vec_contains_usize(v: &Vec<usize>, x: usize) -> (r: bool)
    ensures
        r == v@.contains(x),
{
    let mut i: usize = 0;
    while i < v.len()
        invariant
            0 <= i <= v@.len(),
            forall|k: int| 0 <= k < i ==> v@[k] != x,
        decreases v@.len() - i,
    {
        if v[i] == x {
            return true;
        }
        i = i + 1;
    }
    false
}

/// Whether `x` has a predecessor inside `set` under `edges`.
fn has_pred_in(edges: &Vec<(usize, usize)>, x: usize, set: &Vec<usize>) -> (r: bool)
    ensures
        r == spec_has_pred_in(edges@, x, set@),
{
    let mut m: usize = 0;
    while m < edges.len()
        invariant
            0 <= m <= edges@.len(),
            forall|k: int|
                0 <= k < m ==> !((#[trigger] edges@[k]).1 == x && set@.contains(edges@[k].0)),
        decreases edges@.len() - m,
    {
        let edge = edges[m];
        if edge.1 == x {
            if vec_contains_usize(set, edge.0) {
                return true;
            }
        }
        m = m + 1;
    }
    false
}

/// Computes a dispatch order for `n` nodes under `edges` by the layered
/// sweep: repeatedly emit, as one batch, every node whose predecessors have
/// all been emitted. Succeeds exactly when an order exists; otherwise the
/// leftover nodes — each waiting on another leftover node — are returned as
/// the cycle certificate.
pub fn compute_batches(n: usize, edges: &Vec<(usize, usize)>) -> (r: Result<
    Vec<Vec<usize>>,
    Vec<usize>,
>)
    requires
        edges_wf(n as nat, edges@),
    ensures
        match r {
            Ok(b) => valid_batches(n as nat, edges@, batches_view(b@)) && batches_greedy(
                edges@,
                batches_view(b@),
            ) && schedulable(n as nat, edges@),
            Err(s) => stuck_set(edges@, s@) && !schedulable(n as nat, edges@),
        },
{
    let mut remaining: Vec<usize> = Vec::new();
    let mut x: usize = 0;
    while x < n
        invariant
            0 <= x <= n,
            remaining@.len() == x,
            forall|k: int| 0 <= k < x ==> remaining@[k] == k,
        decreases n - x,
    {
        remaining.push(x);
        x = x + 1;
    }
    let mut batches: Vec<Vec<usize>> = Vec::new();
    proof {
        assert forall|y: usize| (y as nat) < n as nat implies remaining@.contains(y) by {
            assert(remaining@[y as int] == y);
        }
    }
    while remaining.len() > 0
        invariant
            edges_wf(n as nat, edges@),
            forall|k: int, l: int| 0 <= k < l < remaining@.len() ==> remaining@[k] != remaining@[l],
            forall|k: int| 0 <= k < remaining@.len() ==> ((#[trigger] remaining@[k]) as nat) < n,
            forall|y: usize|
                (y as nat) < n ==> (remaining@.contains(y) == !appears(
                    batches_view(batches@),
                    y,
                )),
            forall|y: usize| #[trigger] appears(batches_view(batches@), y) ==> (y as nat) < n,
            ({
                let bv = batches_view(batches@);
                forall|i: int, k: int, j: int, l: int|
                    0 <= i < bv.len() && 0 <= k < bv[i].len() && 0 <= j < bv.len() && 0 <= l
                        < bv[j].len() && (i != j || k != l) ==> #[trigger] bv[i][k]
                        != #[trigger] bv[j][l]
            }),
            ({
                let bv = batches_view(batches@);
                forall|m: int, i: int|
                    0 <= m < edges@.len() && #[trigger] batch_contains(bv, i, edges@[m].1)
                        ==> exists|j: int| j < i && batch_contains(bv, j, edges@[m].0)
            }),
            batches_greedy(edges@, batches_view(batches@)),
            batches@.len() > 0 ==> forall|x: usize|
                #[trigger] remaining@.contains(x) ==> exists|m: int|
                    0 <= m < edges@.len() && (#[trigger] edges@[m]).1 == x && (remaining@.contains(
                        edges@[m].0,
                    ) || batches_view(batches@)[batches_view(batches@).len() - 1].contains(
                        edges@[m].0,
                    )),
        decreases remaining@.len(),
    {
        let ghost bv0 = batches_view(batches@);
        let ghost rem0 = remaining@;
        let mut frontier: Vec<usize> = Vec::new();
        let mut next_remaining: Vec<usize> = Vec::new();
        let mut i: usize = 0;
        while i < remaining.len()
            invariant
                0 <= i <= remaining@.len(),
                remaining@ == rem0,
                forall|k: int, l: int|
                    0 <= k < l < remaining@.len() ==> remaining@[k] != remaining@[l],
                frontier@.len() + next_remaining@.len() == i,
                forall|y: usize|
                    frontier@.contains(y) == (exists|k: int|
                        0 <= k < i && rem0[k] == y && !spec_has_pred_in(edges@, y, rem0)),
                forall|y: usize|
                    next_remaining@.contains(y) == (exists|k: int|
                        0 <= k < i && rem0[k] == y && spec_has_pred_in(edges@, y, rem0)),
                forall|k: int, l: int| 0 <= k < l < frontier@.len() ==> frontier@[k] != frontier@[l],
                forall|k: int, l: int|
                    0 <= k < l < next_remaining@.len() ==> next_remaining@[k] != next_remaining@[l],
                forall|k: int|
                    0 <= k < frontier@.len() ==> rem0.contains(#[trigger] frontier@[k]),
                forall|k: int|
                    0 <= k < next_remaining@.len() ==> rem0.contains(#[trigger] next_remaining@[k]),
            decreases remaining@.len() - i,
        {
            let y = remaining[i];
            let ghost f0 = frontier@;
            let ghost nr0 = next_remaining@;
            proof {
                assert(rem0[i as int] == y);
                assert(rem0.contains(y));
                if frontier@.contains(y) {
                    let k = choose|k: int|
                        0 <= k < i && rem0[k] == y && !spec_has_pred_in(edges@, y, rem0);
                    assert(rem0[k] == rem0[i as int] && k != i);
                    assert(false);
                }
                if next_remaining@.contains(y) {
                    let k = choose|k: int|
                        0 <= k < i && rem0[k] == y && spec_has_pred_in(edges@, y, rem0);
                    assert(rem0[k] == rem0[i as int] && k != i);
                    assert(false);
                }
            }
            if has_pred_in(edges, y, &remaining) {
                next_remaining.push(y);
                proof {
                    assert forall|z: usize|
                        next_remaining@.contains(z) == (exists|k: int|
                            0 <= k < i + 1 && rem0[k] == z && spec_has_pred_in(edges@, z, rem0)) by {
                        if next_remaining@.contains(z) {
                            let p = choose|p: int|
                                0 <= p < next_remaining@.len() && next_remaining@[p] == z;
                            if p < nr0.len() {
                                assert(nr0[p] == z);
                                assert(nr0.contains(z));
                            } else {
                                assert(z == y);
                                assert(rem0[i as int] == z);
                            }
                        }
                        if exists|k: int|
                            0 <= k < i + 1 && rem0[k] == z && spec_has_pred_in(edges@, z, rem0) {
                            let k = choose|k: int|
                                0 <= k < i + 1 && rem0[k] == z && spec_has_pred_in(edges@, z, rem0);
                            if k < i {
                                assert(nr0.contains(z));
                                let p = choose|p: int| 0 <= p < nr0.len() && nr0[p] == z;
                                assert(next_remaining@[p] == z);
                            } else {
                                assert(next_remaining@[next_remaining@.len() - 1] == z);
                            }
                        }
                    }
                    assert forall|z: usize|
                        frontier@.contains(z) == (exists|k: int|
                            0 <= k < i + 1 && rem0[k] == z && !spec_has_pred_in(
                                edges@,
                                z,
                                rem0,
                            )) by {
                        if exists|k: int|
                            0 <= k < i + 1 && rem0[k] == z && !spec_has_pred_in(edges@, z, rem0) {
                            let k = choose|k: int|
                                0 <= k < i + 1 && rem0[k] == z && !spec_has_pred_in(
                                    edges@,
                                    z,
                                    rem0,
                                );
                            if k == i {
                                assert(z == y);
                                assert(false);
                            }
                        }
                    }
                }
            } else {
                frontier.push(y);
                proof {
                    assert forall|z: usize|
                        frontier@.contains(z) == (exists|k: int|
                            0 <= k < i + 1 && rem0[k] == z && !spec_has_pred_in(
                                edges@,
                                z,
                                rem0,
                            )) by {
                        if frontier@.contains(z) {
                            let p = choose|p: int| 0 <= p < frontier@.len() && frontier@[p] == z;
                            if p < f0.len() {
                                assert(f0[p] == z);
                                assert(f0.contains(z));
                            } else {
                                assert(z == y);
                                assert(rem0[i as int] == z);
                            }
                        }
                        if exists|k: int|
                            0 <= k < i + 1 && rem0[k] == z && !spec_has_pred_in(edges@, z, rem0) {
                            let k = choose|k: int|
                                0 <= k < i + 1 && rem0[k] == z && !spec_has_pred_in(
                                    edges@,
                                    z,
                                    rem0,
                                );
                            if k < i {
                                assert(f0.contains(z));
                                let p = choose|p: int| 0 <= p < f0.len() && f0[p] == z;
                                assert(frontier@[p] == z);
                            } else {
                                assert(frontier@[frontier@.len() - 1] == z);
                            }
                        }
                    }
                    assert forall|z: usize|
                        next_remaining@.contains(z) == (exists|k: int|
                            0 <= k < i + 1 && rem0[k] == z && spec_has_pred_in(
                                edges@,
                                z,
                                rem0,
                            )) by {
                        if exists|k: int|
                            0 <= k < i + 1 && rem0[k] == z && spec_has_pred_in(edges@, z, rem0) {
                            let k = choose|k: int|
                                0 <= k < i + 1 && rem0[k] == z && spec_has_pred_in(edges@, z, rem0);
                            if k == i {
                                assert(z == y);
                                assert(false);
                            }
                        }
                    }
                }
            }
            i = i + 1;
        }
        if frontier.len() == 0 {
            proof {
                assert forall|k: int|
                    0 <= k < remaining@.len() implies spec_has_pred_in(
                    edges@,
                    #[trigger] remaining@[k],
                    remaining@,
                ) by {
                    let y = remaining@[k];
                    if !spec_has_pred_in(edges@, y, rem0) {
                        assert(frontier@.contains(y));
                        assert(false);
                    }
                }
                assert(stuck_set(edges@, remaining@));
                lemma_stuck_set_unschedulable(n as nat, edges@, remaining@);
            }
            return Err(remaining);
        }
        let ghost f = frontier@;
        let ghost nr = next_remaining@;
        batches.push(frontier);
        remaining = next_remaining;
        proof {
            let bv = batches_view(batches@);
            assert(batches@.map_values(|v: Vec<usize>| v@) =~= bv0.push(f)) by {
                assert(batches@.len() == bv0.len() + 1);
            }
            assert(bv == bv0.push(f));
            lemma_batches_push(bv0, f);
            // every frontier member was in the old remaining and unplaced
            assert forall|y: usize| f.contains(y) implies rem0.contains(y) && !appears(
                bv0,
                y,
            ) && ((y as nat) < n) by {
                let p = choose|p: int| 0 <= p < f.len() && f[p] == y;
                let q = choose|q: int| 0 <= q < rem0.len() && rem0[q] == y;
                assert((rem0[q] as nat) < n);
            }
            // membership: the new remaining holds exactly the unemitted nodes
            assert forall|y: usize| (y as nat) < n implies (remaining@.contains(y) == !appears(
                bv,
                y,
            )) by {
                if rem0.contains(y) {
                    if f.contains(y) {
                        if remaining@.contains(y) {
                            let k = choose|k: int|
                                0 <= k < nr.len() && nr[k] == y;
                            assert(spec_has_pred_in(edges@, y, rem0));
                            assert(!spec_has_pred_in(edges@, y, rem0));
                        }
                        assert(appears(bv, y));
                    } else {
                        let q = choose|q: int| 0 <= q < rem0.len() && rem0[q] == y;
                        assert(nr.contains(y) || f.contains(y));
                        assert(remaining@.contains(y));
                        assert(!appears(bv0, y));
                        assert(!appears(bv, y));
                    }
                } else {
                    assert(appears(bv0, y));
                    assert(appears(bv, y));
                    if remaining@.contains(y) {
                        let k = choose|k: int| 0 <= k < nr.len() && nr[k] == y;
                        assert(rem0.contains(y));
                        assert(false);
                    }
                }
            }
            assert forall|y: usize| #[trigger] appears(bv, y) implies (y as nat) < n by {
                if appears(bv0, y) {
                } else {
                    assert(f.contains(y));
                }
            }
            // distinctness across all batches
            assert forall|i2: int, k2: int, j2: int, l2: int|
                0 <= i2 < bv.len() && 0 <= k2 < bv[i2].len() && 0 <= j2 < bv.len() && 0 <= l2
                    < bv[j2].len() && (i2 != j2 || k2 != l2) implies #[trigger] bv[i2][k2]
                != #[trigger] bv[j2][l2] by {
                let old_len = bv0.len() as int;
                if i2 < old_len && j2 < old_len {
                    assert(bv[i2] == bv0[i2] && bv[j2] == bv0[j2]);
                } else if i2 == old_len && j2 == old_len {
                    assert(bv[i2] == f);
                } else if i2 == old_len {
                    assert(bv[j2] == bv0[j2]);
                    if f[k2] == bv0[j2][l2] {
                        assert(bv0[j2].contains(f[k2]));
                        assert(batch_contains(bv0, j2, f[k2]));
                        assert(appears(bv0, f[k2]));
                        assert(f.contains(f[k2]));
                        assert(false);
                    }
                } else {
                    assert(bv[i2] == bv0[i2]);
                    if bv0[i2][k2] == f[l2] {
                        assert(bv0[i2].contains(f[l2]));
                        assert(batch_contains(bv0, i2, f[l2]));
                        assert(appears(bv0, f[l2]));
                        assert(f.contains(f[l2]));
                        assert(false);
                    }
                }
            }
            // the sets of the partition: the old remaining splits into the
            // frontier and the new remaining
            assert forall|y: usize| rem0.contains(y) implies f.contains(y) || nr.contains(y) by {
                let k = choose|k: int| 0 <= k < rem0.len() && rem0[k] == y;
                if spec_has_pred_in(edges@, y, rem0) {
                    assert(nr.contains(y));
                } else {
                    assert(f.contains(y));
                }
            }
            // greedy: each newly emitted node was blocked until the previous
            // batch ran, so it has a predecessor exactly there
            assert(batches_greedy(edges@, bv0));
            assert forall|i2: int, k2: int|
                1 <= i2 < bv.len() && 0 <= k2 < bv[i2].len() implies has_pred_in_batch(
                edges@,
                #[trigger] bv[i2][k2],
                bv[i2 - 1],
            ) by {
                if i2 < bv0.len() {
                    assert(bv[i2] == bv0[i2] && bv[i2 - 1] == bv0[i2 - 1]);
                    assert(has_pred_in_batch(edges@, bv0[i2][k2], bv0[i2 - 1]));
                } else {
                    let x = bv[i2][k2];
                    assert(f[k2] == x);
                    assert(f.contains(x));
                    assert(rem0.contains(x));
                    assert(bv0.len() > 0);
                    let m = choose|m: int|
                        0 <= m < edges@.len() && (#[trigger] edges@[m]).1 == x && (rem0.contains(
                            edges@[m].0,
                        ) || bv0[bv0.len() - 1].contains(edges@[m].0));
                    if rem0.contains(edges@[m].0) {
                        assert(spec_has_pred_in(edges@, x, rem0));
                        assert(false);
                    }
                    assert(bv[i2 - 1] == bv0[bv0.len() - 1]);
                    assert(edges@[m].1 == x && bv[i2 - 1].contains(edges@[m].0));
                }
            }
            assert(batches_greedy(edges@, bv));
            // every node still remaining is blocked by something in the new
            // remaining or in the batch just emitted
            assert forall|x: usize| #[trigger] remaining@.contains(x) implies exists|m: int|
                0 <= m < edges@.len() && (#[trigger] edges@[m]).1 == x && (remaining@.contains(
                    edges@[m].0,
                ) || bv[bv.len() - 1].contains(edges@[m].0)) by {
                assert(nr.contains(x));
                assert(spec_has_pred_in(edges@, x, rem0));
                let m = choose|m: int|
                    0 <= m < edges@.len() && (#[trigger] edges@[m]).1 == x && rem0.contains(
                        edges@[m].0,
                    );
                let u = edges@[m].0;
                assert(f.contains(u) || nr.contains(u));
                assert(bv[bv.len() - 1] == f);
            }
            // closedness: a newly emitted node's predecessors are all in
            // earlier batches
            assert forall|m: int, i2: int|
                0 <= m < edges@.len() && #[trigger] batch_contains(bv, i2, edges@[m].1)
                    implies exists|j2: int| j2 < i2 && batch_contains(bv, j2, edges@[m].0) by {
                let v = edges@[m].1;
                let u = edges@[m].0;
                if batch_contains(bv0, i2, v) {
                    let j2 = choose|j2: int| j2 < i2 && batch_contains(bv0, j2, edges@[m].0);
                    assert(batch_contains(bv, j2, edges@[m].0));
                } else {
                    assert(i2 == bv0.len() && f.contains(v));
                    assert(!spec_has_pred_in(edges@, v, rem0));
                    assert(!rem0.contains(u));
                    assert((u as nat) < n);
                    assert(appears(bv0, u));
                    let j2 = choose|j2: int| batch_contains(bv0, j2, u);
                    assert(batch_contains(bv, j2, u));
                    assert(j2 < i2);
                }
            }
        }
    }
    proof {
        let bv = batches_view(batches@);
        assert forall|y: usize| appears(bv, y) == ((y as nat) < (n as nat)) by {
            if (y as nat) < n as nat {
                assert(!remaining@.contains(y));
            }
        }
        // an edge's endpoints are in strictly ordered batches: the target's
        // batch is preceded by some batch holding the source, and the source
        // is in only one batch
        assert forall|m: int, i2: int, j2: int|
            0 <= m < edges@.len() && #[trigger] batch_contains(bv, i2, edges@[m].0)
                && #[trigger] batch_contains(bv, j2, edges@[m].1) implies i2 < j2 by {
            let u = edges@[m].0;
            let j0 = choose|j0: int| j0 < j2 && batch_contains(bv, j0, u);
            if i2 != j0 {
                let k2 = choose|k2: int| 0 <= k2 < bv[i2].len() && bv[i2][k2] == u;
                let k0 = choose|k0: int| 0 <= k0 < bv[j0].len() && bv[j0][k0] == u;
                assert(bv[i2][k2] == bv[j0][k0]);
                assert(false);
            }
        }
        assert(valid_batches(n as nat, edges@, bv));
    }
    Ok(batches)
}

} // verus!

// === The handler graph ===

verus! {

/// A registered handler: the tag identifying its function, and its declared
/// access.
pub struct DynEventHandler {
    pub handler_type_id: TypeInfo,
    pub meta: EventHandlerMeta,
}

/// Why a registration was rejected.
#[derive(Clone, Copy, PartialEq, Eq, Structural, Debug)]
pub enum HandlerRegistrationError {
    /// A handler with this function tag is already registered for the event.
    DuplicateHandler,
    /// An ordering constraint names a handler that is not registered.
    UnknownHandler,
    /// The ordering constraints would close a cycle: no dispatch order could
    /// satisfy them, so the registration is rejected outright.
    OrderingCycle,
}

/// A handler offered for registration: its function tag, its access, and the
/// explicit ordering constraints against previously registered handlers.
pub struct HandlerConfig {
    pub handler_type_id: TypeInfo,
    pub meta: EventHandlerMeta,
    pub run_after: Vec<TypeInfo>,
    pub run_before: Vec<TypeInfo>,
}

impl HandlerConfig {
    pub fn new(handler_type_id: TypeInfo, meta: EventHandlerMeta) -> (r: HandlerConfig)
        ensures
            r.handler_type_id == handler_type_id,
            r.meta == meta,
            r.run_after@ =~= Seq::<TypeInfo>::empty(),
            r.run_before@ =~= Seq::<TypeInfo>::empty(),
    {
        HandlerConfig { handler_type_id, meta, run_after: Vec::new(), run_before: Vec::new() }
    }

    /// Requires the new handler to run after the one tagged `t`.
    pub fn after(self, t: TypeInfo) -> (r: HandlerConfig)
        ensures
            r.handler_type_id == self.handler_type_id,
            r.meta == self.meta,
            r.run_after@ == self.run_after@.push(t),
            r.run_before@ == self.run_before@,
    {
        let mut this = self;
        this.run_after.push(t);
        this
    }

    /// Requires the new handler to run before the one tagged `t`.
    pub fn before(self, t: TypeInfo) -> (r: HandlerConfig)
        ensures
            r.handler_type_id == self.handler_type_id,
            r.meta == self.meta,
            r.run_after@ == self.run_after@,
            r.run_before@ == self.run_before@.push(t),
    {
        let mut this = self;
        this.run_before.push(t);
        this
    }
}

/// Whether `s` holds a node tagged `t`.
pub open spec fn nodes_have_tag(s: Seq<DynEventHandler>, t: TypeInfo) -> bool {
    exists|i: int| 0 <= i < s.len() && s[i].handler_type_id == t
}

/// The index of the node tagged `t`; meaningful when tags are distinct and
/// [`nodes_have_tag`] holds.
pub open spec fn node_index_of(s: Seq<DynEventHandler>, t: TypeInfo) -> int {
    choose|i: int| 0 <= i < s.len() && s[i].handler_type_id == t
}

/// The edges that a config's `run_after` constraints resolve to.
pub open spec fn resolved_after_edges(
    s: Seq<DynEventHandler>,
    new_idx: usize,
    afters: Seq<TypeInfo>,
) -> Seq<(usize, usize)> {
    afters.map_values(|t: TypeInfo| (node_index_of(s, t) as usize, new_idx))
}

/// The edges that a config's `run_before` constraints resolve to.
pub open spec fn resolved_before_edges(
    s: Seq<DynEventHandler>,
    new_idx: usize,
    befores: Seq<TypeInfo>,
) -> Seq<(usize, usize)> {
    befores.map_values(|t: TypeInfo| (new_idx, node_index_of(s, t) as usize))
}

/// The registered handlers of one event type, with their ordering edges.
/// An edge `(a, b)` means the handler at index `a` is dispatched in a batch
/// strictly before the one at index `b`.
pub struct DynEventHandlers {
    event_type_id: TypeInfo,
    nodes: Vec<DynEventHandler>,
    edges: Vec<(usize, usize)>,
}

impl DynEventHandlers {
    /// The tag of the event type these handlers answer to.
    pub closed spec fn spec_event_type_id(&self) -> TypeInfo {
        self.event_type_id
    }

    /// The tag of the event type these handlers answer to.
    pub fn event_type_id(&self) -> (r: TypeInfo)
        ensures
            r == self.spec_event_type_id(),
    {
        self.event_type_id
    }

    pub closed spec fn spec_nodes(&self) -> Seq<DynEventHandler> {
        self.nodes@
    }

    pub closed spec fn spec_edges(&self) -> Seq<(usize, usize)> {
        self.edges@
    }

    /// Well-formed: edges within range, one node per handler tag, well-formed
    /// access declarations — and some dispatch order exists, which
    /// registration keeps true by rejecting cycle-closing constraints.
    pub open spec fn wf(&self) -> bool {
        &&& edges_wf(self.spec_nodes().len(), self.spec_edges())
        &&& forall|i: int, j: int|
            0 <= i < j < self.spec_nodes().len() ==> (#[trigger] self.spec_nodes()[i]).handler_type_id
                != (#[trigger] self.spec_nodes()[j]).handler_type_id
        &&& forall|i: int| 0 <= i < self.spec_nodes().len() ==> (#[trigger] self.spec_nodes()[i]).meta.wf()
        &&& schedulable(self.spec_nodes().len(), self.spec_edges())
    }

    pub fn new(event_type_id: TypeInfo) -> (r: DynEventHandlers)
        ensures
            r.wf(),
            r.spec_event_type_id() == event_type_id,
            r.spec_nodes() =~= Seq::<DynEventHandler>::empty(),
            r.spec_edges() =~= Seq::<(usize, usize)>::empty(),
    {
        let r = DynEventHandlers { event_type_id, nodes: Vec::new(), edges: Vec::new() };
        proof {
            let b = Seq::<Seq<usize>>::empty();
            assert forall|x: usize| appears(b, x) == ((x as nat) < 0) by {
                if appears(b, x) {
                    let i = choose|i: int| batch_contains(b, i, x);
                }
            }
            assert(valid_batches(0, r.spec_edges(), b));
        }
        r
    }

    /// How many handlers are registered.
    pub fn handler_count(&self) -> (r: usize)
        ensures
            r == self.spec_nodes().len(),
    {
        self.nodes.len()
    }

    /// The access declaration of the handler at `index`.
    pub fn handler_meta(&self, index: usize) -> (r: &EventHandlerMeta)
        requires
            index < self.spec_nodes().len(),
        ensures
            *r == self.spec_nodes()[index as int].meta,
    {
        &self.nodes[index].meta
    }

    /// The function tag of the handler at `index`.
    pub fn handler_tag(&self, index: usize) -> (r: TypeInfo)
        requires
            index < self.spec_nodes().len(),
        ensures
            r == self.spec_nodes()[index as int].handler_type_id,
    {
        self.nodes[index].handler_type_id
    }

    /// A dispatch order for the current graph, by the layered topological
    /// sweep: every handler in exactly one batch, every ordering edge's
    /// source batched strictly before its target. Always succeeds, because
    /// registration keeps the graph schedulable.
    pub fn dispatch_order(&self) -> (r: Vec<Vec<usize>>)
        requires
            self.wf(),
        ensures
            valid_batches(self.spec_nodes().len(), self.spec_edges(), batches_view(r@)),
            batches_greedy(self.spec_edges(), batches_view(r@)),
    {
        match compute_batches(self.nodes.len(), &self.edges) {
            Ok(b) => b,
            Err(_) => {
                proof {
                    assert(false);
                }
                Vec::new()
            }
        }
    }

    /// The index of the node tagged `t`, if any.
    fn find_node(&self, t: TypeInfo) -> (r: Option<usize>)
        ensures
            match r {
                Some(i) => i < self.spec_nodes().len() && self.spec_nodes()[i as int].handler_type_id
                    == t,
                None => !nodes_have_tag(self.spec_nodes(), t),
            },
    {
        let mut i: usize = 0;
        while i < self.nodes.len()
            invariant
                0 <= i <= self.nodes@.len(),
                forall|k: int| 0 <= k < i ==> (#[trigger] self.nodes@[k]).handler_type_id != t,
            decreases self.nodes@.len() - i,
        {
            if self.nodes[i].handler_type_id == t {
                return Some(i);
            }
            i = i + 1;
        }
        None
    }

    /// Registers a handler, resolving its ordering constraints into graph
    /// edges. The constraints are checked as a whole: if they would close a
    /// cycle the registration fails and the graph is unchanged, so a
    /// dispatch order always exists.
    pub fn insert(&mut self, config: HandlerConfig) -> (r: Result<usize, HandlerRegistrationError>)
        requires
            old(self).wf(),
            config.meta.wf(),
            old(self).spec_nodes().len() < usize::MAX,
        ensures
            final(self).wf(),
            final(self).spec_event_type_id() == old(self).spec_event_type_id(),
            nodes_have_tag(old(self).spec_nodes(), config.handler_type_id) ==> r
                == Result::<usize, HandlerRegistrationError>::Err(
                HandlerRegistrationError::DuplicateHandler,
            ) && *final(self) == *old(self),
            match r {
                Ok(i) => {
                    &&& !nodes_have_tag(old(self).spec_nodes(), config.handler_type_id)
                    &&& i == old(self).spec_nodes().len()
                    &&& final(self).spec_nodes() == old(self).spec_nodes().push(
                        DynEventHandler {
                            handler_type_id: config.handler_type_id,
                            meta: config.meta,
                        },
                    )
                    &&& final(self).spec_edges() == old(self).spec_edges() + resolved_after_edges(
                        old(self).spec_nodes(),
                        i,
                        config.run_after@,
                    ) + resolved_before_edges(old(self).spec_nodes(), i, config.run_before@)
                    &&& forall|k: int|
                        0 <= k < config.run_after@.len() ==> nodes_have_tag(
                            old(self).spec_nodes(),
                            #[trigger] config.run_after@[k],
                        )
                    &&& forall|k: int|
                        0 <= k < config.run_before@.len() ==> nodes_have_tag(
                            old(self).spec_nodes(),
                            #[trigger] config.run_before@[k],
                        )
                },
                Err(e) => {
                    &&& *final(self) == *old(self)
                    &&& (e is DuplicateHandler ==> nodes_have_tag(
                        old(self).spec_nodes(),
                        config.handler_type_id,
                    ))
                    &&& (e is UnknownHandler ==> !nodes_have_tag(
                        old(self).spec_nodes(),
                        config.handler_type_id,
                    ) && ((exists|k: int|
                        0 <= k < config.run_after@.len() && !nodes_have_tag(
                            old(self).spec_nodes(),
                            #[trigger] config.run_after@[k],
                        )) || (exists|k2: int|
                        0 <= k2 < config.run_before@.len() && !nodes_have_tag(
                            old(self).spec_nodes(),
                            #[trigger] config.run_before@[k2],
                        ))))
                    &&& (e is OrderingCycle ==> !schedulable(
                        old(self).spec_nodes().len() + 1,
                        old(self).spec_edges() + resolved_after_edges(
                            old(self).spec_nodes(),
                            old(self).spec_nodes().len() as usize,
                            config.run_after@,
                        ) + resolved_before_edges(
                            old(self).spec_nodes(),
                            old(self).spec_nodes().len() as usize,
                            config.run_before@,
                        ),
                    ))
                },
            },
    {
        let new_idx = self.nodes.len();
        match self.find_node(config.handler_type_id) {
            Some(_) => {
                return Err(HandlerRegistrationError::DuplicateHandler);
            }
            None => {}
        }
        let mut tentative: Vec<(usize, usize)> = Vec::new();
        let mut i: usize = 0;
        while i < self.edges.len()
            invariant
                0 <= i <= self.edges@.len(),
                tentative@ =~= self.edges@.subrange(0, i as int),
            decreases self.edges@.len() - i,
        {
            tentative.push(self.edges[i]);
            i = i + 1;
        }
        proof {
            assert(tentative@ =~= self.edges@);
        }
        let ghost nodes0 = self.spec_nodes();
        let mut k: usize = 0;
        while k < config.run_after.len()
            invariant
                0 <= k <= config.run_after@.len(),
                self == old(self),
                new_idx == self.spec_nodes().len(),
                self.wf(),
                nodes0 == self.spec_nodes(),
                !nodes_have_tag(nodes0, config.handler_type_id),
                forall|p: int|
                    0 <= p < k ==> nodes_have_tag(nodes0, #[trigger] config.run_after@[p]),
                tentative@ =~= self.spec_edges() + resolved_after_edges(
                    nodes0,
                    new_idx,
                    config.run_after@.subrange(0, k as int),
                ),
            decreases config.run_after@.len() - k,
        {
            let t = config.run_after[k];
            match self.find_node(t) {
                None => {
                    return Err(HandlerRegistrationError::UnknownHandler);
                }
                Some(j) => {
                    tentative.push((j, new_idx));
                    proof {
                        assert(nodes_have_tag(nodes0, t)) by {
                            assert(nodes0[j as int].handler_type_id == t);
                        }
                        assert(node_index_of(nodes0, t) == j) by {
                            let i2 = node_index_of(nodes0, t);
                            if i2 < j as int {
                                assert(nodes0[i2].handler_type_id != nodes0[j as int].handler_type_id);
                            } else if i2 > j as int {
                                assert(nodes0[j as int].handler_type_id != nodes0[i2].handler_type_id);
                            }
                        }
                        assert(tentative@ =~= self.spec_edges() + resolved_after_edges(
                            nodes0,
                            new_idx,
                            config.run_after@.subrange(0, k + 1),
                        )) by {
                            let pre = config.run_after@.subrange(0, k as int);
                            let post = config.run_after@.subrange(0, k + 1);
                            assert(post =~= pre.push(t));
                            assert(resolved_after_edges(nodes0, new_idx, post) =~= resolved_after_edges(
                                nodes0,
                                new_idx,
                                pre,
                            ).push((j, new_idx)));
                        }
                    }
                }
            }
            k = k + 1;
        }
        proof {
            assert(config.run_after@.subrange(0, config.run_after@.len() as int)
                =~= config.run_after@);
        }
        let ghost after_part = tentative@;
        let mut k: usize = 0;
        while k < config.run_before.len()
            invariant
                0 <= k <= config.run_before@.len(),
                self == old(self),
                new_idx == self.spec_nodes().len(),
                self.wf(),
                nodes0 == self.spec_nodes(),
                !nodes_have_tag(nodes0, config.handler_type_id),
                forall|p: int|
                    0 <= p < k ==> nodes_have_tag(nodes0, #[trigger] config.run_before@[p]),
                tentative@ =~= after_part + resolved_before_edges(
                    nodes0,
                    new_idx,
                    config.run_before@.subrange(0, k as int),
                ),
            decreases config.run_before@.len() - k,
        {
            let t = config.run_before[k];
            match self.find_node(t) {
                None => {
                    return Err(HandlerRegistrationError::UnknownHandler);
                }
                Some(j) => {
                    tentative.push((new_idx, j));
                    proof {
                        assert(nodes_have_tag(nodes0, t)) by {
                            assert(nodes0[j as int].handler_type_id == t);
                        }
                        assert(node_index_of(nodes0, t) == j) by {
                            let i2 = node_index_of(nodes0, t);
                            if i2 < j as int {
                                assert(nodes0[i2].handler_type_id != nodes0[j as int].handler_type_id);
                            } else if i2 > j as int {
                                assert(nodes0[j as int].handler_type_id != nodes0[i2].handler_type_id);
                            }
                        }
                        assert(tentative@ =~= after_part + resolved_before_edges(
                            nodes0,
                            new_idx,
                            config.run_before@.subrange(0, k + 1),
                        )) by {
                            let pre = config.run_before@.subrange(0, k as int);
                            let post = config.run_before@.subrange(0, k + 1);
                            assert(post =~= pre.push(t));
                            assert(resolved_before_edges(nodes0, new_idx, post)
                                =~= resolved_before_edges(nodes0, new_idx, pre).push((new_idx, j)));
                        }
                    }
                }
            }
            k = k + 1;
        }
        proof {
            assert(config.run_before@.subrange(0, config.run_before@.len() as int)
                =~= config.run_before@);
            assert(tentative@ =~= self.spec_edges() + resolved_after_edges(
                nodes0,
                new_idx,
                config.run_after@,
            ) + resolved_before_edges(nodes0, new_idx, config.run_before@));
            assert(edges_wf((new_idx + 1) as nat, tentative@)) by {
                assert forall|m: int|
                    0 <= m < tentative@.len() implies ((#[trigger] tentative@[m]).0 as nat) < (
                new_idx + 1) as nat && (tentative@[m].1 as nat) < (new_idx + 1) as nat by {
                    if m < self.spec_edges().len() {
                        assert(tentative@[m] == self.spec_edges()[m]);
                    }
                }
            }
        }
        match compute_batches(new_idx + 1, &tentative) {
            Ok(_) => {
                self.nodes.push(
                    DynEventHandler { handler_type_id: config.handler_type_id, meta: config.meta },
                );
                self.edges = tentative;
                proof {
                    assert forall|i2: int, j2: int|
                        0 <= i2 < j2 < self.spec_nodes().len() implies (
                    #[trigger] self.spec_nodes()[i2]).handler_type_id
                        != (#[trigger] self.spec_nodes()[j2]).handler_type_id by {
                        if j2 == self.spec_nodes().len() - 1 {
                            if self.spec_nodes()[i2].handler_type_id == config.handler_type_id {
                                assert(nodes_have_tag(nodes0, config.handler_type_id));
                            }
                        }
                    }
                }
                Ok(new_idx)
            }
            Err(_) => Err(HandlerRegistrationError::OrderingCycle),
        }
    }
}

/// Cycle rejection: mutually contradictory ordering constraints — one edge
/// asking `a` to run before `b` and another asking `b` to run before `a` —
/// leave the graph with no dispatch order at all, so the registration that
/// would add the second edge must fail.
pub proof fn lemma_mutual_order_unschedulable(
    n: nat,
    edges: Seq<(usize, usize)>,
    a: usize,
    b: usize,
)
    requires
        edges.contains((a, b)),
        edges.contains((b, a)),
        (a as nat) < n,
        (b as nat) < n,
    ensures
        !schedulable(n, edges),
{
    let s = seq![a, b];
    let m1 = choose|i: int| 0 <= i < edges.len() && edges[i] == (a, b);
    let m2 = choose|i: int| 0 <= i < edges.len() && edges[i] == (b, a);
    assert(s.contains(a)) by {
        assert(s[0] == a);
    }
    assert(s.contains(b)) by {
        assert(s[1] == b);
    }
    assert forall|k: int| 0 <= k < s.len() implies spec_has_pred_in(edges, #[trigger] s[k], s) by {
        if k == 0 {
            assert(edges[m2].1 == a && s.contains(edges[m2].0));
        } else {
            assert(edges[m1].1 == b && s.contains(edges[m1].0));
        }
    }
    assert(stuck_set(edges, s));
    lemma_stuck_set_unschedulable(n, edges, s);
}

} // verus!
