//! Event dispatchers and the event registry.
//!
//! Each event type owns a handler graph and the instant of its previous
//! firing. Firing computes the dispatch plan — the batches of the
//! topological sweep — together with the time elapsed since the previous
//! firing of the same event; the embedding runtime executes the plan,
//! running the handlers of one batch concurrently and batches in order.

use vstd::prelude::*;

use crate::handler::{
    batches_greedy, batches_view, valid_batches, DynEventHandlers, HandlerConfig,
    HandlerRegistrationError,
};
use crate::util::TypeInfo;

verus! {

/// The dispatch plan of one firing: which handlers to run, in which
/// concurrent batches, and the time since the previous firing (absent on the
/// first).
pub struct FirePlan {
    pub batches: Vec<Vec<usize>>,
    pub delta_ms: Option<u64>,
    pub handler_count: usize,
}

/// One event type's dispatcher: its handler graph and the instant of its
/// previous firing.
pub struct DynEventDispatcher {
    pub handlers: DynEventHandlers,
    pub last_fired_ms: Option<u64>,
}

impl DynEventDispatcher {
    pub open spec fn wf(&self) -> bool {
        self.handlers.wf()
    }

    pub fn new(event_type_id: TypeInfo) -> (r: DynEventDispatcher)
        ensures
            r.wf(),
            r.handlers.spec_event_type_id() == event_type_id,
            r.handlers.spec_nodes() =~= Seq::<crate::handler::DynEventHandler>::empty(),
            r.handlers.spec_edges() =~= Seq::<(usize, usize)>::empty(),
            r.last_fired_ms is None,
    {
        DynEventDispatcher { handlers: DynEventHandlers::new(event_type_id), last_fired_ms: None }
    }

    /// Computes the dispatch plan for one firing at wall-clock time `now_ms`
    /// and records the firing. The plan's batches are a correct dispatch
    /// order: every handler exactly once, ordering edges respected across
    /// batches. The delta is the time since the previous firing, absent on
    /// the first (a clock running backwards yields zero).
    pub fn fire(&mut self, now_ms: u64) -> (r: FirePlan)
        requires
            old(self).wf(),
        ensures
            final(self).wf(),
            final(self).handlers == old(self).handlers,
            final(self).last_fired_ms == Some(now_ms),
            valid_batches(
                old(self).handlers.spec_nodes().len(),
                old(self).handlers.spec_edges(),
                batches_view(r.batches@),
            ),
            batches_greedy(old(self).handlers.spec_edges(), batches_view(r.batches@)),
            r.handler_count == old(self).handlers.spec_nodes().len(),
            r.delta_ms == match old(self).last_fired_ms {
                Some(t) => Some(if now_ms >= t {
                    (now_ms - t) as u64
                } else {
                    0u64
                }),
                None => None::<u64>,
            },
    {
        let batches = self.handlers.dispatch_order();
        let delta_ms = match self.last_fired_ms {
            Some(t) => Some(if now_ms >= t { now_ms - t } else { 0 }),
            None => None,
        };
        self.last_fired_ms = Some(now_ms);
        let handler_count = self.handlers.handler_count();
        FirePlan { batches, delta_ms, handler_count }
    }
}

/// Whether `s` holds a dispatcher for event tag `t`.
pub open spec fn disp_has(s: Seq<DynEventDispatcher>, t: TypeInfo) -> bool {
    exists|i: int| 0 <= i < s.len() && s[i].handlers.spec_event_type_id() == t
}

/// The index of the dispatcher for `t`; meaningful under [`disp_wf`] when
/// [`disp_has`] holds.
pub open spec fn disp_index(s: Seq<DynEventDispatcher>, t: TypeInfo) -> int {
    choose|i: int| 0 <= i < s.len() && s[i].handlers.spec_event_type_id() == t
}

/// Well-formed dispatcher list: one per event tag, each well-formed.
pub open spec fn disp_wf(s: Seq<DynEventDispatcher>) -> bool {
    &&& forall|i: int, j: int|
        0 <= i < j < s.len() ==> (#[trigger] s[i]).handlers.spec_event_type_id() != (
        #[trigger] s[j]).handlers.spec_event_type_id()
    &&& forall|i: int| 0 <= i < s.len() ==> (#[trigger] s[i]).wf()
}

proof fn lemma_disp_index_unique(s: Seq<DynEventDispatcher>, t: TypeInfo)
    requires
        disp_wf(s),
        disp_has(s, t),
    ensures
        0 <= disp_index(s, t) < s.len(),
        s[disp_index(s, t)].handlers.spec_event_type_id() == t,
        forall|j: int|
            0 <= j < s.len() && s[j].handlers.spec_event_type_id() == t ==> j == disp_index(
                s,
                t,
            ),
{
    let i = disp_index(s, t);
    assert forall|j: int|
        0 <= j < s.len() && s[j].handlers.spec_event_type_id() == t implies j == i by {
        if j < i {
            assert(s[j].handlers.spec_event_type_id() != s[i].handlers.spec_event_type_id());
        } else if i < j {
            assert(s[i].handlers.spec_event_type_id() != s[j].handlers.spec_event_type_id());
        }
    }
}

/// The effect of registering (or finding) event `t`.
pub open spec fn add_event_effect(pre: Events, post: Events, t: TypeInfo, r: EventDispatcher) -> bool {
    &&& r.event_type_id == t
    &&& post.spec_has_event(t)
    &&& r.index == post.spec_event_index(t)
    &&& (pre.spec_has_event(t) ==> post.spec_entries() == pre.spec_entries() && r.index
        == pre.spec_event_index(t))
    &&& (!pre.spec_has_event(t) ==> {
        &&& post.spec_entries().len() == pre.spec_entries().len() + 1
        &&& forall|j: int|
            0 <= j < pre.spec_entries().len() ==> post.spec_entries()[j] == pre.spec_entries()[j]
        &&& post.spec_dispatcher(t).handlers.spec_nodes() =~= Seq::<
            crate::handler::DynEventHandler,
        >::empty()
        &&& post.spec_dispatcher(t).handlers.spec_edges() =~= Seq::<(usize, usize)>::empty()
        &&& post.spec_dispatcher(t).last_fired_ms is None
        &&& r.index == pre.spec_entries().len()
    })
    &&& forall|t2: TypeInfo| post.spec_has_event(t2) == (pre.spec_has_event(t2) || t2 == t)
    &&& forall|t2: TypeInfo|
        pre.spec_has_event(t2) ==> post.spec_dispatcher(t2) == pre.spec_dispatcher(t2)
}

/// The effect of registering a handler for event `t` (creating the event if
/// need be).
pub open spec fn add_handler_effect(
    pre: Events,
    post: Events,
    t: TypeInfo,
    config: HandlerConfig,
    r: Result<usize, HandlerRegistrationError>,
) -> bool {
    let base_nodes = if pre.spec_has_event(t) {
        pre.spec_dispatcher(t).handlers.spec_nodes()
    } else {
        Seq::<crate::handler::DynEventHandler>::empty()
    };
    let base_edges = if pre.spec_has_event(t) {
        pre.spec_dispatcher(t).handlers.spec_edges()
    } else {
        Seq::<(usize, usize)>::empty()
    };
    let base_last = if pre.spec_has_event(t) {
        pre.spec_dispatcher(t).last_fired_ms
    } else {
        None::<u64>
    };
    &&& post.spec_has_event(t)
    &&& forall|t2: TypeInfo| post.spec_has_event(t2) == (pre.spec_has_event(t2) || t2 == t)
    &&& forall|t2: TypeInfo|
        pre.spec_has_event(t2) && t2 != t ==> post.spec_dispatcher(t2) == pre.spec_dispatcher(t2)
    &&& post.spec_dispatcher(t).last_fired_ms == base_last
    &&& match r {
        Ok(i) => {
            &&& !crate::handler::nodes_have_tag(base_nodes, config.handler_type_id)
            &&& i == base_nodes.len()
            &&& post.spec_dispatcher(t).handlers.spec_nodes() == base_nodes.push(
                crate::handler::DynEventHandler {
                    handler_type_id: config.handler_type_id,
                    meta: config.meta,
                },
            )
            &&& post.spec_dispatcher(t).handlers.spec_edges() == base_edges
                + crate::handler::resolved_after_edges(base_nodes, i, config.run_after@)
                + crate::handler::resolved_before_edges(base_nodes, i, config.run_before@)
        },
        Err(e) => {
            &&& post.spec_dispatcher(t).handlers.spec_nodes() == base_nodes
            &&& post.spec_dispatcher(t).handlers.spec_edges() == base_edges
            &&& (e is UnknownHandler ==> !crate::handler::nodes_have_tag(
                base_nodes,
                config.handler_type_id,
            ) && ((exists|k: int|
                0 <= k < config.run_after@.len() && !crate::handler::nodes_have_tag(
                    base_nodes,
                    #[trigger] config.run_after@[k],
                )) || (exists|k2: int|
                0 <= k2 < config.run_before@.len() && !crate::handler::nodes_have_tag(
                    base_nodes,
                    #[trigger] config.run_before@[k2],
                ))))
            &&& (e is OrderingCycle ==> !crate::handler::schedulable(
                base_nodes.len() + 1,
                base_edges + crate::handler::resolved_after_edges(
                    base_nodes,
                    base_nodes.len() as usize,
                    config.run_after@,
                ) + crate::handler::resolved_before_edges(
                    base_nodes,
                    base_nodes.len() as usize,
                    config.run_before@,
                ),
            ))
            &&& (e is DuplicateHandler ==> crate::handler::nodes_have_tag(
                base_nodes,
                config.handler_type_id,
            ))
        },
    }
}

/// The effect of firing event `t` at time `now_ms`.
pub open spec fn fire_event_effect(
    pre: Events,
    post: Events,
    t: TypeInfo,
    now_ms: u64,
    r: FirePlan,
) -> bool {
    &&& forall|t2: TypeInfo| post.spec_has_event(t2) == pre.spec_has_event(t2)
    &&& forall|t2: TypeInfo|
        pre.spec_has_event(t2) && t2 != t ==> post.spec_dispatcher(t2) == pre.spec_dispatcher(t2)
    &&& post.spec_dispatcher(t).handlers == pre.spec_dispatcher(t).handlers
    &&& post.spec_dispatcher(t).last_fired_ms == Some(now_ms)
    &&& valid_batches(
        pre.spec_dispatcher(t).handlers.spec_nodes().len(),
        pre.spec_dispatcher(t).handlers.spec_edges(),
        batches_view(r.batches@),
    )
    &&& batches_greedy(pre.spec_dispatcher(t).handlers.spec_edges(), batches_view(r.batches@))
    &&& r.handler_count == pre.spec_dispatcher(t).handlers.spec_nodes().len()
    &&& r.delta_ms == match pre.spec_dispatcher(t).last_fired_ms {
        Some(prev) => Some(
            if now_ms >= prev {
                (now_ms - prev) as u64
            } else {
                0u64
            },
        ),
        None => None::<u64>,
    }
}

/// A handle to one registered event type: the tag and the dispatcher's
/// position in the registry. Registering the same event type again yields a
/// handle with the same position — the same underlying dispatcher.
#[derive(Clone, Copy, PartialEq, Eq, Structural, Debug)]
pub struct EventDispatcher {
    pub event_type_id: TypeInfo,
    pub index: usize,
}

/// The event registry: one dispatcher per registered event type.
pub struct Events {
    entries: Vec<DynEventDispatcher>,
}

impl Events {
    pub closed spec fn spec_entries(&self) -> Seq<DynEventDispatcher> {
        self.entries@
    }

    pub open spec fn wf(&self) -> bool {
        disp_wf(self.spec_entries())
    }

    /// Whether the event tag `t` is registered.
    pub open spec fn spec_has_event(&self, t: TypeInfo) -> bool {
        disp_has(self.spec_entries(), t)
    }

    /// The registry position of `t`'s dispatcher.
    pub open spec fn spec_event_index(&self, t: TypeInfo) -> int {
        disp_index(self.spec_entries(), t)
    }

    /// The dispatcher of event tag `t`.
    pub open spec fn spec_dispatcher(&self, t: TypeInfo) -> DynEventDispatcher {
        self.spec_entries()[self.spec_event_index(t)]
    }

    pub fn new() -> (r: Events)
        ensures
            r.wf(),
            r.spec_entries().len() == 0,
            forall|t: TypeInfo| !r.spec_has_event(t),
    {
        let r = Events { entries: Vec::new() };
        proof {
            assert forall|t: TypeInfo| !r.spec_has_event(t) by {
                if r.spec_has_event(t) {
                    let i = choose|i: int|
                        0 <= i < r.spec_entries().len()
                            && r.spec_entries()[i].handlers.spec_event_type_id() == t;
                }
            }
        }
        r
    }

    fn find(&self, t: TypeInfo) -> (r: Option<usize>)
        ensures
            match r {
                Some(i) => i < self.spec_entries().len()
                    && self.spec_entries()[i as int].handlers.spec_event_type_id() == t,
                None => !self.spec_has_event(t),
            },
    {
        let mut i: usize = 0;
        while i < self.entries.len()
            invariant
                0 <= i <= self.entries@.len(),
                forall|k: int|
                    0 <= k < i ==> (#[trigger] self.entries@[k]).handlers.spec_event_type_id()
                        != t,
            decreases self.entries@.len() - i,
        {
            if self.entries[i].handlers.event_type_id() == t {
                return Some(i);
            }
            i = i + 1;
        }
        None
    }

    /// Registers the event type `t`, or finds it: the first call creates the
    /// dispatcher, every later call returns a handle to the same one and
    /// leaves the registry untouched.
    pub fn add_event(&mut self, t: TypeInfo) -> (r: EventDispatcher)
        requires
            old(self).wf(),
            old(self).spec_entries().len() < usize::MAX,
        ensures
            final(self).wf(),
            add_event_effect(*old(self), *final(self), t, r),
    {
        match self.find(t) {
            Some(i) => {
                proof {
                    lemma_disp_index_unique(self.spec_entries(), t);
                    assert forall|t2: TypeInfo|
                        old(self).spec_has_event(t2) implies final(self).spec_dispatcher(t2)
                        == old(self).spec_dispatcher(t2) by {}
                }
                EventDispatcher { event_type_id: t, index: i }
            }
            None => {
                let ghost s0 = self.entries@;
                let d = DynEventDispatcher::new(t);
                self.entries.push(d);
                proof {
                    let s2 = self.entries@;
                    let n = s0.len() as int;
                    assert(s2[n].handlers.spec_event_type_id() == t);
                    assert forall|t2: TypeInfo|
                        disp_has(s2, t2) == (disp_has(s0, t2) || t2 == t) by {
                        if disp_has(s2, t2) {
                            let i = choose|i: int|
                                0 <= i < s2.len() && s2[i].handlers.spec_event_type_id() == t2;
                            if i < n {
                                assert(s0[i].handlers.spec_event_type_id() == t2);
                            }
                        }
                        if disp_has(s0, t2) {
                            let i = choose|i: int|
                                0 <= i < s0.len() && s0[i].handlers.spec_event_type_id() == t2;
                            assert(s2[i].handlers.spec_event_type_id() == t2);
                        }
                        if t2 == t {
                            assert(s2[n].handlers.spec_event_type_id() == t2);
                        }
                    }
                    assert forall|i: int, j: int|
                        0 <= i < j < s2.len() implies (
                    #[trigger] s2[i]).handlers.spec_event_type_id() != (
                    #[trigger] s2[j]).handlers.spec_event_type_id() by {
                        if j == n {
                            if s2[i].handlers.spec_event_type_id() == t {
                                assert(s0[i].handlers.spec_event_type_id() == t);
                                assert(disp_has(s0, t));
                            }
                        }
                    }
                    lemma_disp_index_unique(s2, t);
                    assert(disp_index(s2, t) == n);
                    assert forall|t2: TypeInfo|
                        disp_has(s0, t2) implies self.spec_dispatcher(t2)
                        == old(self).spec_dispatcher(t2) by {
                        lemma_disp_index_unique(s0, t2);
                        lemma_disp_index_unique(s2, t2);
                        let i = disp_index(s0, t2);
                        assert(s2[i].handlers.spec_event_type_id() == t2);
                        assert(disp_index(s2, t2) == i);
                    }
                }
                EventDispatcher { event_type_id: t, index: self.entries.len() - 1 }
            }
        }
    }

    /// A handle to the dispatcher of `t`, if registered.
    pub fn get_event(&self, t: TypeInfo) -> (r: Option<EventDispatcher>)
        requires
            self.wf(),
        ensures
            match r {
                Some(d) => self.spec_has_event(t) && d.event_type_id == t && d.index
                    == self.spec_event_index(t),
                None => !self.spec_has_event(t),
            },
    {
        match self.find(t) {
            Some(i) => {
                proof {
                    lemma_disp_index_unique(self.spec_entries(), t);
                }
                Some(EventDispatcher { event_type_id: t, index: i })
            }
            None => None,
        }
    }

    /// The access declaration of handler `index` of event `t`.
    pub fn handler_meta(&self, t: TypeInfo, index: usize) -> (r: &crate::handler::EventHandlerMeta)
        requires
            self.wf(),
            self.spec_has_event(t),
            index < self.spec_dispatcher(t).handlers.spec_nodes().len(),
        ensures
            *r == self.spec_dispatcher(t).handlers.spec_nodes()[index as int].meta,
    {
        let i = match self.find(t) {
            Some(i) => i,
            None => {
                proof {
                    assert(false);
                }
                0
            }
        };
        proof {
            lemma_disp_index_unique(self.spec_entries(), t);
        }
        self.entries[i].handlers.handler_meta(index)
    }

    /// How many events are registered.
    pub fn event_count(&self) -> (r: usize)
        ensures
            r == self.spec_entries().len(),
    {
        self.entries.len()
    }

    /// How many handlers event `t` has.
    pub fn handler_count(&self, t: TypeInfo) -> (r: usize)
        requires
            self.wf(),
            self.spec_has_event(t),
        ensures
            r == self.spec_dispatcher(t).handlers.spec_nodes().len(),
    {
        let i = match self.find(t) {
            Some(i) => i,
            None => {
                proof {
                    assert(false);
                }
                0
            }
        };
        proof {
            lemma_disp_index_unique(self.spec_entries(), t);
        }
        self.entries[i].handlers.handler_count()
    }

    /// Whether the event tag `t` is registered.
    pub fn has_event(&self, t: TypeInfo) -> (r: bool)
        ensures
            r == self.spec_has_event(t),
    {
        match self.find(t) {
            Some(_) => true,
            None => false,
        }
    }

    /// Registers a handler for event `t`, creating the event if need be.
    /// The handler's ordering constraints are resolved and checked; a
    /// cycle-closing registration fails and changes no handler graph.
    pub fn add_handler(&mut self, t: TypeInfo, config: HandlerConfig) -> (r: Result<
        usize,
        HandlerRegistrationError,
    >)
        requires
            old(self).wf(),
            config.meta.wf(),
            old(self).spec_entries().len() < usize::MAX,
            old(self).spec_has_event(t) ==> old(self).spec_dispatcher(
                t,
            ).handlers.spec_nodes().len() < usize::MAX,
        ensures
            final(self).wf(),
            add_handler_effect(*old(self), *final(self), t, config, r),
    {
        let d = self.add_event(t);
        let i = d.index;
        proof {
            lemma_disp_index_unique(self.spec_entries(), t);
            assert(self.spec_entries()[i as int].handlers.spec_nodes().len() < usize::MAX);
        }
        let ghost s0 = self.entries@;
        let mut entry = self.entries.remove(i);
        let r = entry.handlers.insert(config);
        self.entries.insert(i, entry);
        proof {
            assert(self.entries@ =~= s0.update(i as int, entry));
            let s2 = self.entries@;
            assert(entry.handlers.spec_event_type_id() == t);
            assert forall|t2: TypeInfo| disp_has(s2, t2) == disp_has(s0, t2) by {
                if disp_has(s2, t2) {
                    let j = choose|j: int|
                        0 <= j < s2.len() && s2[j].handlers.spec_event_type_id() == t2;
                    if j == i as int {
                        assert(s0[j].handlers.spec_event_type_id() == t2);
                    } else {
                        assert(s0[j].handlers.spec_event_type_id() == t2);
                    }
                }
                if disp_has(s0, t2) {
                    let j = choose|j: int|
                        0 <= j < s0.len() && s0[j].handlers.spec_event_type_id() == t2;
                    if j == i as int {
                        assert(s2[j].handlers.spec_event_type_id() == t2);
                    } else {
                        assert(s2[j].handlers.spec_event_type_id() == t2);
                    }
                }
            }
            assert forall|j: int, k: int|
                0 <= j < k < s2.len() implies (#[trigger] s2[j]).handlers.spec_event_type_id()
                != (#[trigger] s2[k]).handlers.spec_event_type_id() by {
                if j == i as int {
                    assert(s2[k] == s0[k]);
                } else if k == i as int {
                    assert(s2[j] == s0[j]);
                } else {
                    assert(s2[j] == s0[j] && s2[k] == s0[k]);
                }
            }
            lemma_disp_index_unique(s2, t);
            assert(disp_index(s2, t) == i as int);
            assert forall|t2: TypeInfo|
                disp_has(s0, t2) && t2 != t implies self.spec_dispatcher(t2) == old(
                self,
            ).spec_dispatcher(t2) by {
                lemma_disp_index_unique(s0, t2);
                lemma_disp_index_unique(s2, t2);
                let j = disp_index(s0, t2);
                assert(j != i as int);
                assert(s2[j].handlers.spec_event_type_id() == t2);
                assert(disp_index(s2, t2) == j);
                assert(old(self).spec_dispatcher(t2) == s0[j]);
            }
        }
        r
    }

    /// Fires event `t` at wall-clock time `now_ms`: computes the dispatch
    /// plan from `t`'s handler graph and records the firing instant.
    pub fn fire_event(&mut self, t: TypeInfo, now_ms: u64) -> (r: FirePlan)
        requires
            old(self).wf(),
            old(self).spec_has_event(t),
        ensures
            final(self).wf(),
            fire_event_effect(*old(self), *final(self), t, now_ms, r),
    {
        let i = match self.find(t) {
            Some(i) => i,
            None => {
                proof {
                    assert(false);
                }
                0
            }
        };
        proof {
            lemma_disp_index_unique(self.spec_entries(), t);
        }
        let ghost s0 = self.entries@;
        let mut entry = self.entries.remove(i);
        let r = entry.fire(now_ms);
        self.entries.insert(i, entry);
        proof {
            assert(self.entries@ =~= s0.update(i as int, entry));
            let s2 = self.entries@;
            assert(entry.handlers.spec_event_type_id() == t);
            assert forall|t2: TypeInfo| disp_has(s2, t2) == disp_has(s0, t2) by {
                if disp_has(s2, t2) {
                    let j = choose|j: int|
                        0 <= j < s2.len() && s2[j].handlers.spec_event_type_id() == t2;
                    assert(s0[j].handlers.spec_event_type_id() == t2);
                }
                if disp_has(s0, t2) {
                    let j = choose|j: int|
                        0 <= j < s0.len() && s0[j].handlers.spec_event_type_id() == t2;
                    assert(s2[j].handlers.spec_event_type_id() == t2);
                }
            }
            assert forall|j: int, k: int|
                0 <= j < k < s2.len() implies (#[trigger] s2[j]).handlers.spec_event_type_id()
                != (#[trigger] s2[k]).handlers.spec_event_type_id() by {
                if j == i as int {
                    assert(s2[k] == s0[k]);
                } else if k == i as int {
                    assert(s2[j] == s0[j]);
                } else {
                    assert(s2[j] == s0[j] && s2[k] == s0[k]);
                }
            }
            lemma_disp_index_unique(s2, t);
            assert(disp_index(s2, t) == i as int);
            assert forall|t2: TypeInfo|
                disp_has(s0, t2) && t2 != t implies self.spec_dispatcher(t2) == old(
                self,
            ).spec_dispatcher(t2) by {
                lemma_disp_index_unique(s0, t2);
                lemma_disp_index_unique(s2, t2);
                let j = disp_index(s0, t2);
                assert(j != i as int);
                assert(s2[j].handlers.spec_event_type_id() == t2);
                assert(disp_index(s2, t2) == j);
                assert(old(self).spec_dispatcher(t2) == s0[j]);
            }
        }
        r
    }
}

impl Default for Events {
    fn default() -> (r: Events)
        ensures
            r.wf(),
            r.spec_entries().len() == 0,
            forall|t: TypeInfo| !r.spec_has_event(t),
    {
        Events::new()
    }
}

/// Idempotent registration: when the event tag is already registered,
/// registering it again returns a handle to the same dispatcher slot and
/// leaves every dispatcher exactly as it was — firing through either handle
/// reaches the same handlers.
pub proof fn lemma_add_event_idempotent(e1: Events, e2: Events, t: TypeInfo, d2: EventDispatcher)
    requires
        e1.wf(),
        e1.spec_has_event(t),
        // what `add_event(t)` on `e1` guarantees of its result state `e2`
        // and handle `d2`
        e2.spec_entries() == e1.spec_entries(),
        d2.event_type_id == t,
        d2.index == e1.spec_event_index(t),
    ensures
        e2.spec_dispatcher(t) == e1.spec_dispatcher(t),
        e2.spec_entries()[d2.index as int] == e1.spec_dispatcher(t),
{
    lemma_disp_index_unique(e1.spec_entries(), t);
}

} // verus!
