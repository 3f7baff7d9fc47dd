use kyrene::component::{DynComponent, ExclusiveGrant, InsertOutcome};
use kyrene::handler::{
    combine_compatible, EventHandlerMeta, HandlerConfig, HandlerRegistrationError,
};
use kyrene::util::TypeInfo;
use kyrene::world::World;

const TICK: u64 = 100;
const COUNT: u64 = 1;
const RES_R: u64 = 20;

const HANDLER_A: u64 = 1000;
const HANDLER_B: u64 = 1001;
const HANDLER_C: u64 = 1002;

fn batch_of(plan: &kyrene::event::FirePlan, handler: usize) -> usize {
    for (i, batch) in plan.batches.iter().enumerate() {
        if batch.contains(&handler) {
            return i;
        }
    }
    panic!("handler {} missing from the dispatch plan", handler);
}

#[test]
fn add_event_idempotent() {
    // the first registration creates the dispatcher; the second returns a
    // handle to the same one
    let mut world: World<i64> = World::new();
    let d1 = world.add_event(TypeInfo::of(TICK));
    let d2 = world.add_event(TypeInfo::of(TICK));
    assert_eq!(d1, d2);

    // a handler registered through the event is seen when firing after
    // either registration call
    let config = HandlerConfig::new(TypeInfo::of(HANDLER_A), EventHandlerMeta::new());
    world.add_event_handler(TypeInfo::of(TICK), config).unwrap();
    let d3 = world.add_event(TypeInfo::of(TICK));
    assert_eq!(d1, d3);
    let plan = world.fire_event(TypeInfo::of(TICK), 0);
    assert_eq!(plan.handler_count, 1);
    assert_eq!(plan.batches.iter().map(|b| b.len()).sum::<usize>(), 1);
}

#[test]
fn topological_dispatch_order() {
    // edge A -> B (B after A), C unconstrained: A's batch comes strictly
    // before B's, C may share a batch with either
    let mut world: World<i64> = World::new();
    let t = TypeInfo::of(TICK);
    let a = world
        .add_event_handler(t, HandlerConfig::new(TypeInfo::of(HANDLER_A), EventHandlerMeta::new()))
        .unwrap();
    let b = world
        .add_event_handler(
            t,
            HandlerConfig::new(TypeInfo::of(HANDLER_B), EventHandlerMeta::new())
                .after(TypeInfo::of(HANDLER_A)),
        )
        .unwrap();
    let c = world
        .add_event_handler(t, HandlerConfig::new(TypeInfo::of(HANDLER_C), EventHandlerMeta::new()))
        .unwrap();
    let plan = world.fire_event(t, 0);
    assert_eq!(plan.handler_count, 3);
    assert!(batch_of(&plan, a) < batch_of(&plan, b));
    // every handler appears exactly once
    assert_eq!(plan.batches.iter().map(|batch| batch.len()).sum::<usize>(), 3);
    let _ = c;
}

#[test]
fn cycle_rejected_at_registration() {
    // a second registration whose constraints ask both "after A" and
    // "before A" would close a cycle and must fail
    let mut world: World<i64> = World::new();
    let t = TypeInfo::of(TICK);
    world
        .add_event_handler(t, HandlerConfig::new(TypeInfo::of(HANDLER_A), EventHandlerMeta::new()))
        .unwrap();
    let second = world.add_event_handler(
        t,
        HandlerConfig::new(TypeInfo::of(HANDLER_B), EventHandlerMeta::new())
            .after(TypeInfo::of(HANDLER_A))
            .before(TypeInfo::of(HANDLER_A)),
    );
    assert!(matches!(second, Err(HandlerRegistrationError::OrderingCycle)));
    // the graph is unchanged: only A is dispatched
    let plan = world.fire_event(t, 0);
    assert_eq!(plan.handler_count, 1);
}

#[test]
fn unknown_ordering_reference_rejected() {
    let mut world: World<i64> = World::new();
    let t = TypeInfo::of(TICK);
    let r = world.add_event_handler(
        t,
        HandlerConfig::new(TypeInfo::of(HANDLER_A), EventHandlerMeta::new())
            .after(TypeInfo::of(HANDLER_B)),
    );
    assert!(matches!(r, Err(HandlerRegistrationError::UnknownHandler)));
}

#[test]
fn duplicate_handler_rejected() {
    let mut world: World<i64> = World::new();
    let t = TypeInfo::of(TICK);
    world
        .add_event_handler(t, HandlerConfig::new(TypeInfo::of(HANDLER_A), EventHandlerMeta::new()))
        .unwrap();
    let again = world
        .add_event_handler(t, HandlerConfig::new(TypeInfo::of(HANDLER_A), EventHandlerMeta::new()));
    assert!(matches!(again, Err(HandlerRegistrationError::DuplicateHandler)));
}

#[test]
fn fire_reports_elapsed_delta() {
    let mut world: World<i64> = World::new();
    let t = TypeInfo::of(TICK);
    world.add_event(t);
    let first = world.fire_event(t, 100);
    assert_eq!(first.delta_ms, None);
    let second = world.fire_event(t, 250);
    assert_eq!(second.delta_ms, Some(150));
    let third = world.fire_event(t, 250);
    assert_eq!(third.delta_ms, Some(0));
}

#[test]
fn unmet_precondition_skips_handler() {
    // a handler requiring a resource is skipped, without error, until the
    // resource exists
    let mut world: World<i64> = World::new();
    let t = TypeInfo::of(TICK);
    let meta = EventHandlerMeta::new().res(TypeInfo::of(RES_R));
    let idx = world
        .add_event_handler(t, HandlerConfig::new(TypeInfo::of(HANDLER_A), meta))
        .unwrap();
    assert!(!world.handler_can_run(t, idx));
    world.insert_resource(DynComponent::new(TypeInfo::of(RES_R), 0));
    assert!(world.handler_can_run(t, idx));
}

#[test]
fn conflicting_writers_composite_rejected() {
    // two parameters both writing resource R conflict; composing them into
    // one handler's parameter tuple must fail, while registering them as
    // two independent handlers for the same event is permitted
    let h1 = EventHandlerMeta::new().res_mut(TypeInfo::of(RES_R));
    let h2 = EventHandlerMeta::new().res_mut(TypeInfo::of(RES_R));
    assert!(!h1.is_compatible(&h2));
    let composite = combine_compatible(&vec![h1, h2]);
    assert!(matches!(composite, Err(1)));

    let mut world: World<i64> = World::new();
    let t = TypeInfo::of(TICK);
    let a = world
        .add_event_handler(
            t,
            HandlerConfig::new(
                TypeInfo::of(HANDLER_A),
                EventHandlerMeta::new().res_mut(TypeInfo::of(RES_R)),
            ),
        )
        .unwrap();
    let b = world
        .add_event_handler(
            t,
            HandlerConfig::new(
                TypeInfo::of(HANDLER_B),
                EventHandlerMeta::new().res_mut(TypeInfo::of(RES_R)),
            ),
        )
        .unwrap();
    // both run, in the same unordered batch
    let plan = world.fire_event(t, 0);
    assert_eq!(plan.handler_count, 2);
    assert_eq!(batch_of(&plan, a), batch_of(&plan, b));
}

#[test]
fn compatible_accesses_compose() {
    let h1 = EventHandlerMeta::new().res(TypeInfo::of(RES_R));
    let h2 = EventHandlerMeta::new().res(TypeInfo::of(RES_R));
    assert!(h1.is_compatible(&h2));
    let composite = combine_compatible(&vec![h1, h2]).unwrap();
    let required = composite.required_resources();
    assert_eq!(required.len(), 1);
    assert_eq!(required[0], TypeInfo::of(RES_R));
}

#[test]
fn tick_increments_counter_three_times() {
    // entity E with (count = 0); a handler increments count on each tick;
    // three await-all firings leave count == 3
    let mut world: World<i64> = World::new();
    let tick = TypeInfo::of(TICK);
    let count = TypeInfo::of(COUNT);
    let e = world.entity();
    let r = world.insert(e, DynComponent::new(count, 0));
    assert!(matches!(r, InsertOutcome::Fresh));
    let h = world
        .add_event_handler(
            tick,
            HandlerConfig::new(TypeInfo::of(HANDLER_A), EventHandlerMeta::new()),
        )
        .unwrap();

    for firing in 0..3u64 {
        let plan = world.fire_event(tick, firing * 16);
        // await-all driving: run every batch to completion, in order
        for batch in &plan.batches {
            for &handler in batch {
                assert_eq!(handler, h);
                if !world.handler_can_run(tick, handler) {
                    continue;
                }
                // the handler body: increment the count component of E
                match world.get_mut(e, count) {
                    ExclusiveGrant::Granted(v) => world.return_exclusive(e, count, v + 1),
                    _ => panic!("count should be available"),
                }
            }
        }
    }
    assert_eq!(world.read(e, count), Some(&3));
}

#[test]
fn unconstrained_handlers_share_first_batch() {
    // handlers with no ordering constraint of their own are dispatched
    // together in the earliest batch
    let mut world: World<i64> = World::new();
    let t = TypeInfo::of(TICK);
    let a = world
        .add_event_handler(t, HandlerConfig::new(TypeInfo::of(HANDLER_A), EventHandlerMeta::new()))
        .unwrap();
    let b = world
        .add_event_handler(
            t,
            HandlerConfig::new(TypeInfo::of(HANDLER_B), EventHandlerMeta::new())
                .after(TypeInfo::of(HANDLER_A)),
        )
        .unwrap();
    let c = world
        .add_event_handler(t, HandlerConfig::new(TypeInfo::of(HANDLER_C), EventHandlerMeta::new()))
        .unwrap();
    let plan = world.fire_event(t, 0);
    assert_eq!(batch_of(&plan, a), 0);
    assert_eq!(batch_of(&plan, c), 0);
    assert_eq!(batch_of(&plan, b), 1);
}

#[test]
fn diamond_dispatches_in_three_batches() {
    // a -> b, a -> c, b -> d, c -> d: batches [a], [b, c], [d]
    const HANDLER_D: u64 = 1003;
    let mut world: World<i64> = World::new();
    let t = TypeInfo::of(TICK);
    let a = world
        .add_event_handler(t, HandlerConfig::new(TypeInfo::of(HANDLER_A), EventHandlerMeta::new()))
        .unwrap();
    let b = world
        .add_event_handler(
            t,
            HandlerConfig::new(TypeInfo::of(HANDLER_B), EventHandlerMeta::new())
                .after(TypeInfo::of(HANDLER_A)),
        )
        .unwrap();
    let c = world
        .add_event_handler(
            t,
            HandlerConfig::new(TypeInfo::of(HANDLER_C), EventHandlerMeta::new())
                .after(TypeInfo::of(HANDLER_A)),
        )
        .unwrap();
    let d = world
        .add_event_handler(
            t,
            HandlerConfig::new(TypeInfo::of(HANDLER_D), EventHandlerMeta::new())
                .after(TypeInfo::of(HANDLER_B))
                .after(TypeInfo::of(HANDLER_C)),
        )
        .unwrap();
    let plan = world.fire_event(t, 0);
    assert_eq!(plan.batches.len(), 3);
    assert_eq!(batch_of(&plan, a), 0);
    assert_eq!(batch_of(&plan, b), 1);
    assert_eq!(batch_of(&plan, c), 1);
    assert_eq!(batch_of(&plan, d), 2);
}
