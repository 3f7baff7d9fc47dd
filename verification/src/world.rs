//! The world: the aggregate of entity allocator, component store, resource
//! store and event registry, with every operation of the parts exposed on
//! one value. An embedding runtime owns the world (usually behind a shared
//! handle), drives dispatch plans, and retries `Busy` outcomes.

use vstd::prelude::*;

use crate::component::{
    get_effect, get_mut_effect, insert_bundle_effect, insert_discard_effect, insert_effect,
    release_shared_effect, remove_effect, return_exclusive_effect, Components, DynComponent,
    ExclusiveGrant, InsertOutcome, RemoveOutcome, SharedGrant,
};
use crate::entity::{Entities, Entity};
use crate::event::{
    add_event_effect, add_handler_effect, fire_event_effect, EventDispatcher, Events, FirePlan,
};
use crate::handler::{HandlerConfig, HandlerRegistrationError};
use crate::resource::{
    res_get_effect, res_get_mut_effect, res_insert_effect, res_release_shared_effect,
    res_remove_effect, res_return_exclusive_effect, Resources,
};
use crate::util::TypeInfo;

verus! {

/// Fired once at startup, before the tick loop begins, awaiting all
/// handlers.
#[derive(Clone, Copy, PartialEq, Eq, Structural, Hash, Debug)]
pub struct WorldStartup;

/// Fired repeatedly by the runtime's tick loop, carrying the tick counter;
/// handlers derive their frame delta from the firing's elapsed time.
#[derive(Clone, Copy, PartialEq, Eq, Structural, Hash, Debug)]
pub struct WorldTick {
    pub tick: u64,
}

/// Fired once when the host signals termination.
#[derive(Clone, Copy, PartialEq, Eq, Structural, Hash, Debug)]
pub struct WorldShutdown;

/// The aggregate store.
pub struct World<V> {
    pub entities: Entities,
    pub components: Components<V>,
    pub resources: Resources<V>,
    pub events: Events,
}

impl<V> World<V> {
    pub open spec fn wf(&self) -> bool {
        &&& self.components.wf()
        &&& self.resources.wf()
        &&& self.events.wf()
    }

    pub fn new() -> (r: World<V>)
        ensures
            r.wf(),
            r.entities.spec_next_id() == 0,
            forall|e: Entity, t: TypeInfo| !r.components.spec_has(e, t),
            forall|t: TypeInfo| !r.resources.spec_contains(t),
            forall|t: TypeInfo| !r.events.spec_has_event(t),
            r.events.spec_entries().len() == 0,
    {
        World {
            entities: Entities::new(),
            components: Components::new(),
            resources: Resources::new(),
            events: Events::new(),
        }
    }

    /// A world with the three well-known built-in events registered under
    /// the runtime's chosen tags — the startup event, the periodic tick
    /// event and the shutdown event — and nothing else.
    pub fn with_builtin_events(startup: TypeInfo, tick: TypeInfo, shutdown: TypeInfo) -> (r: World<
        V,
    >)
        ensures
            r.wf(),
            r.entities.spec_next_id() == 0,
            forall|e: Entity, t: TypeInfo| !r.components.spec_has(e, t),
            forall|t: TypeInfo| !r.resources.spec_contains(t),
            forall|t: TypeInfo|
                r.events.spec_has_event(t) == (t == startup || t == tick || t == shutdown),
            ({
                let empty_handlers = Seq::<crate::handler::DynEventHandler>::empty();
                let no_edges = Seq::<(usize, usize)>::empty();
                &&& r.events.spec_dispatcher(startup).handlers.spec_nodes() =~= empty_handlers
                &&& r.events.spec_dispatcher(startup).handlers.spec_edges() =~= no_edges
                &&& r.events.spec_dispatcher(startup).last_fired_ms is None
                &&& r.events.spec_dispatcher(tick).handlers.spec_nodes() =~= empty_handlers
                &&& r.events.spec_dispatcher(tick).handlers.spec_edges() =~= no_edges
                &&& r.events.spec_dispatcher(tick).last_fired_ms is None
                &&& r.events.spec_dispatcher(shutdown).handlers.spec_nodes() =~= empty_handlers
                &&& r.events.spec_dispatcher(shutdown).handlers.spec_edges() =~= no_edges
                &&& r.events.spec_dispatcher(shutdown).last_fired_ms is None
            }),
    {
        let mut world: World<V> = World::new();
        world.add_event(startup);
        world.add_event(tick);
        world.add_event(shutdown);
        world
    }

    /// Allocates a fresh entity identifier.
    pub fn entity(&mut self) -> (r: Entity)
        requires
            old(self).entities.spec_next_id() < u64::MAX,
        ensures
            r.spec_id() == old(self).entities.spec_next_id(),
            final(self).entities.spec_next_id() == old(self).entities.spec_next_id() + 1,
            final(self).components == old(self).components,
            final(self).resources == old(self).resources,
            final(self).events == old(self).events,
    {
        self.entities.allocate()
    }

    /// Creates or replaces the component slot, returning the previous value;
    /// `Busy` while the old slot is checked out.
    pub fn insert(&mut self, entity: Entity, component: DynComponent<V>) -> (r: InsertOutcome<V>)
        requires
            old(self).wf(),
        ensures
            final(self).wf(),
            insert_effect(old(self).components, final(self).components, entity, component, r),
            final(self).entities == old(self).entities,
            final(self).resources == old(self).resources,
            final(self).events == old(self).events,
    {
        self.components.insert(entity, component)
    }

    /// Creates or replaces the component slot unconditionally.
    pub fn insert_discard(&mut self, entity: Entity, component: DynComponent<V>)
        requires
            old(self).wf(),
        ensures
            final(self).wf(),
            insert_discard_effect(old(self).components, final(self).components, entity, component),
            final(self).entities == old(self).entities,
            final(self).resources == old(self).resources,
            final(self).events == old(self).events,
    {
        self.components.insert_discard(entity, component)
    }

    /// Inserts a bundle of components on one entity.
    pub fn insert_bundle<B: crate::component::Bundle<V>>(&mut self, entity: Entity, bundle: B)
        requires
            old(self).wf(),
        ensures
            final(self).wf(),
            insert_bundle_effect(
                old(self).components,
                final(self).components,
                entity,
                bundle.spec_components(),
            ),
            final(self).entities == old(self).entities,
            final(self).resources == old(self).resources,
            final(self).events == old(self).events,
    {
        let components = bundle.into_dyn_components();
        self.components.insert_bundle(entity, components)
    }

    /// Allocates a fresh entity and inserts a bundle of components on it.
    pub fn spawn<B: crate::component::Bundle<V>>(&mut self, bundle: B) -> (r: Entity)
        requires
            old(self).wf(),
            old(self).entities.spec_next_id() < u64::MAX,
        ensures
            final(self).wf(),
            r.spec_id() == old(self).entities.spec_next_id(),
            final(self).entities.spec_next_id() == old(self).entities.spec_next_id() + 1,
            insert_bundle_effect(
                old(self).components,
                final(self).components,
                r,
                bundle.spec_components(),
            ),
            final(self).resources == old(self).resources,
            final(self).events == old(self).events,
    {
        let entity = self.entities.allocate();
        let components = bundle.into_dyn_components();
        self.components.insert_bundle(entity, components);
        entity
    }

    /// Deletes the component slot and returns its value; `Busy` while
    /// checked out.
    pub fn remove(&mut self, entity: Entity, type_id: TypeInfo) -> (r: RemoveOutcome<V>)
        requires
            old(self).wf(),
        ensures
            final(self).wf(),
            remove_effect(old(self).components, final(self).components, entity, type_id, r),
            final(self).entities == old(self).entities,
            final(self).resources == old(self).resources,
            final(self).events == old(self).events,
    {
        self.components.remove(entity, type_id)
    }

    /// Requests a shared checkout of a component.
    pub fn get(&mut self, entity: Entity, type_id: TypeInfo) -> (r: SharedGrant)
        requires
            old(self).wf(),
        ensures
            final(self).wf(),
            get_effect(old(self).components, final(self).components, entity, type_id, r),
            final(self).entities == old(self).entities,
            final(self).resources == old(self).resources,
            final(self).events == old(self).events,
    {
        self.components.get(entity, type_id)
    }

    /// Requests the exclusive checkout of a component.
    pub fn get_mut(&mut self, entity: Entity, type_id: TypeInfo) -> (r: ExclusiveGrant<V>)
        requires
            old(self).wf(),
        ensures
            final(self).wf(),
            get_mut_effect(old(self).components, final(self).components, entity, type_id, r),
            final(self).entities == old(self).entities,
            final(self).resources == old(self).resources,
            final(self).events == old(self).events,
    {
        self.components.get_mut(entity, type_id)
    }

    /// Ends one shared checkout of a component.
    pub fn release_shared(&mut self, entity: Entity, type_id: TypeInfo)
        requires
            old(self).wf(),
            old(self).components.spec_has(entity, type_id),
            old(self).components.spec_slot(entity, type_id) is Loan,
        ensures
            final(self).wf(),
            release_shared_effect(old(self).components, final(self).components, entity, type_id),
            final(self).entities == old(self).entities,
            final(self).resources == old(self).resources,
            final(self).events == old(self).events,
    {
        self.components.release_shared(entity, type_id)
    }

    /// Returns the exclusively checked-out component value.
    pub fn return_exclusive(&mut self, entity: Entity, type_id: TypeInfo, value: V)
        requires
            old(self).wf(),
            old(self).components.spec_has(entity, type_id),
            old(self).components.spec_slot(entity, type_id) is LoanMut,
        ensures
            final(self).wf(),
            return_exclusive_effect(
                old(self).components,
                final(self).components,
                entity,
                type_id,
                value,
            ),
            final(self).entities == old(self).entities,
            final(self).resources == old(self).resources,
            final(self).events == old(self).events,
    {
        self.components.return_exclusive(entity, type_id, value)
    }

    /// Reads a component value while it is in the store.
    pub fn read(&self, entity: Entity, type_id: TypeInfo) -> (r: Option<&V>)
        requires
            self.wf(),
        ensures
            match r {
                Some(v) => self.components.read_value(entity, type_id) == Some(*v),
                None => self.components.read_value(entity, type_id) is None,
            },
    {
        self.components.read(entity, type_id)
    }

    /// Whether the entity holds a component of this tag (an index lookup; no
    /// statement about checkout availability).
    pub fn has(&self, entity: Entity, type_id: TypeInfo) -> (r: bool)
        ensures
            r == self.components.spec_has(entity, type_id),
    {
        self.components.has(entity, type_id)
    }

    /// Every entity holding a component of this tag.
    pub fn entities_with(&self, type_id: TypeInfo) -> (r: Vec<Entity>)
        requires
            self.wf(),
        ensures
            forall|e: Entity|
                self.components.spec_has(e, type_id) == crate::component::vec_has_entity(r@, e),
            forall|k: int, l: int| 0 <= k < l < r@.len() ==> r@[k] != r@[l],
    {
        self.components.entities_with(type_id)
    }

    /// Every entity holding any component.
    pub fn entity_iter(&self) -> (r: Vec<Entity>)
        ensures
            forall|e: Entity|
                (exists|t: TypeInfo| self.components.spec_has(e, t))
                    == crate::component::vec_has_entity(r@, e),
            forall|k: int, l: int| 0 <= k < l < r@.len() ==> r@[k] != r@[l],
    {
        self.components.entity_iter()
    }

    /// Creates or replaces the resource of this value's tag.
    pub fn insert_resource(&mut self, resource: DynComponent<V>) -> (r: InsertOutcome<V>)
        requires
            old(self).wf(),
        ensures
            final(self).wf(),
            res_insert_effect(old(self).resources, final(self).resources, resource, r),
            final(self).entities == old(self).entities,
            final(self).components == old(self).components,
            final(self).events == old(self).events,
    {
        self.resources.insert(resource)
    }

    /// Deletes the resource of this tag and returns it.
    pub fn remove_resource(&mut self, type_id: TypeInfo) -> (r: RemoveOutcome<V>)
        requires
            old(self).wf(),
        ensures
            final(self).wf(),
            res_remove_effect(old(self).resources, final(self).resources, type_id, r),
            final(self).entities == old(self).entities,
            final(self).components == old(self).components,
            final(self).events == old(self).events,
    {
        self.resources.remove(type_id)
    }

    /// Whether a resource of this tag exists, whatever its checkout state.
    pub fn has_resource(&self, type_id: TypeInfo) -> (r: bool)
        ensures
            r == self.resources.spec_contains(type_id),
    {
        self.resources.contains(type_id)
    }

    /// Requests a shared checkout of a resource.
    pub fn get_resource(&mut self, type_id: TypeInfo) -> (r: SharedGrant)
        requires
            old(self).wf(),
        ensures
            final(self).wf(),
            res_get_effect(old(self).resources, final(self).resources, type_id, r),
            final(self).entities == old(self).entities,
            final(self).components == old(self).components,
            final(self).events == old(self).events,
    {
        self.resources.get(type_id)
    }

    /// Requests the exclusive checkout of a resource.
    pub fn get_resource_mut(&mut self, type_id: TypeInfo) -> (r: ExclusiveGrant<V>)
        requires
            old(self).wf(),
        ensures
            final(self).wf(),
            res_get_mut_effect(old(self).resources, final(self).resources, type_id, r),
            final(self).entities == old(self).entities,
            final(self).components == old(self).components,
            final(self).events == old(self).events,
    {
        self.resources.get_mut(type_id)
    }

    /// Ends one shared checkout of a resource.
    pub fn release_resource_shared(&mut self, type_id: TypeInfo)
        requires
            old(self).wf(),
            old(self).resources.spec_contains(type_id),
            old(self).resources.spec_slot(type_id) is Loan,
        ensures
            final(self).wf(),
            res_release_shared_effect(old(self).resources, final(self).resources, type_id),
            final(self).entities == old(self).entities,
            final(self).components == old(self).components,
            final(self).events == old(self).events,
    {
        self.resources.release_shared(type_id)
    }

    /// Returns the exclusively checked-out resource.
    pub fn return_resource_exclusive(&mut self, type_id: TypeInfo, value: V)
        requires
            old(self).wf(),
            old(self).resources.spec_contains(type_id),
            old(self).resources.spec_slot(type_id) is LoanMut,
        ensures
            final(self).wf(),
            res_return_exclusive_effect(old(self).resources, final(self).resources, type_id, value),
            final(self).entities == old(self).entities,
            final(self).components == old(self).components,
            final(self).events == old(self).events,
    {
        self.resources.return_exclusive(type_id, value)
    }

    /// Reads a resource value while it is in the store.
    pub fn read_resource(&self, type_id: TypeInfo) -> (r: Option<&V>)
        requires
            self.wf(),
        ensures
            match r {
                Some(v) => self.resources.read_value(type_id) == Some(*v),
                None => self.resources.read_value(type_id) is None,
            },
    {
        self.resources.read(type_id)
    }

    /// Registers the event type, or finds it: idempotent, the second call
    /// hands back the same dispatcher slot.
    pub fn add_event(&mut self, t: TypeInfo) -> (r: EventDispatcher)
        requires
            old(self).wf(),
            old(self).events.spec_entries().len() < usize::MAX,
        ensures
            final(self).wf(),
            add_event_effect(old(self).events, final(self).events, t, r),
            final(self).entities == old(self).entities,
            final(self).components == old(self).components,
            final(self).resources == old(self).resources,
    {
        self.events.add_event(t)
    }

    /// A handle to the event's dispatcher, if registered.
    pub fn get_event(&self, t: TypeInfo) -> (r: Option<EventDispatcher>)
        requires
            self.wf(),
        ensures
            match r {
                Some(d) => self.events.spec_has_event(t) && d.event_type_id == t && d.index
                    == self.events.spec_event_index(t),
                None => !self.events.spec_has_event(t),
            },
    {
        self.events.get_event(t)
    }

    /// Whether the event type is registered.
    pub fn has_event(&self, t: TypeInfo) -> (r: bool)
        ensures
            r == self.events.spec_has_event(t),
    {
        self.events.has_event(t)
    }

    /// Registers a handler for the event, creating the event if need be;
    /// rejects duplicate handlers, unknown ordering references, and ordering
    /// constraints that would close a cycle.
    pub fn add_event_handler(&mut self, t: TypeInfo, config: HandlerConfig) -> (r: Result<
        usize,
        HandlerRegistrationError,
    >)
        requires
            old(self).wf(),
            config.meta.wf(),
            old(self).events.spec_entries().len() < usize::MAX,
            old(self).events.spec_has_event(t) ==> old(self).events.spec_dispatcher(
                t,
            ).handlers.spec_nodes().len() < usize::MAX,
        ensures
            final(self).wf(),
            add_handler_effect(old(self).events, final(self).events, t, config, r),
            final(self).entities == old(self).entities,
            final(self).components == old(self).components,
            final(self).resources == old(self).resources,
    {
        self.events.add_handler(t, config)
    }

    /// Fires the event at wall-clock time `now_ms`: computes the dispatch
    /// plan and records the firing instant. The runtime executes the plan,
    /// batch by batch, checking each handler's precondition just before
    /// invoking it.
    pub fn fire_event(&mut self, t: TypeInfo, now_ms: u64) -> (r: FirePlan)
        requires
            old(self).wf(),
            old(self).events.spec_has_event(t),
        ensures
            final(self).wf(),
            fire_event_effect(old(self).events, final(self).events, t, now_ms, r),
            final(self).entities == old(self).entities,
            final(self).components == old(self).components,
            final(self).resources == old(self).resources,
    {
        self.events.fire_event(t, now_ms)
    }

    /// Constructs a query over this world's component store: the matching
    /// entity set is computed now and does not follow later changes.
    pub fn query(&self, terms: Vec<crate::query::QueryTerm>) -> (r: crate::query::Query)
        requires
            self.wf(),
        ensures
            r.terms == terms,
            forall|e: Entity|
                r.spec_matched(e) == crate::query::entity_matches(self.components, terms@, e),
    {
        crate::query::Query::new(&self.components, terms)
    }

    /// Whether the handler at `index` of event `t` can run right now: every
    /// resource it declares must exist. A handler whose precondition is
    /// unmet is silently skipped for this firing, not an error.
    pub fn handler_can_run(&self, t: TypeInfo, index: usize) -> (r: bool)
        requires
            self.wf(),
            self.events.spec_has_event(t),
            index < self.events.spec_dispatcher(t).handlers.spec_nodes().len(),
        ensures
            r == self.events.spec_dispatcher(t).handlers.spec_nodes()[
                index as int
            ].meta.spec_can_run(&self.resources),
    {
        let meta = self.events.handler_meta(t, index);
        meta.can_run(&self.resources)
    }
}

impl<V> Default for World<V> {
    fn default() -> (r: World<V>)
        ensures
            r.wf(),
            r.entities.spec_next_id() == 0,
            forall|e: Entity, t: TypeInfo| !r.components.spec_has(e, t),
            forall|t: TypeInfo| !r.resources.spec_contains(t),
            forall|t: TypeInfo| !r.events.spec_has_event(t),
    {
        World::new()
    }
}

} // verus!
