use kyrene::component::{DynComponent, ExclusiveGrant, InsertOutcome, RemoveOutcome, SharedGrant};
use kyrene::util::TypeInfo;
use kyrene::world::World;

const COUNT: u64 = 1;
const LABEL: u64 = 2;
const CONFIG: u64 = 10;

#[test]
fn insert_then_get_returns_value() {
    // after insert(E, v) with no intervening remove, a read yields a value
    // equal to v
    let mut world: World<i64> = World::new();
    let e = world.entity();
    let r = world.insert(e, DynComponent::new(TypeInfo::of(COUNT), 41));
    assert!(matches!(r, InsertOutcome::Fresh));
    assert_eq!(world.read(e, TypeInfo::of(COUNT)), Some(&41));
    assert!(world.has(e, TypeInfo::of(COUNT)));
}

#[test]
fn insert_replaces_and_returns_old() {
    let mut world: World<i64> = World::new();
    let e = world.entity();
    world.insert(e, DynComponent::new(TypeInfo::of(COUNT), 1));
    let r = world.insert(e, DynComponent::new(TypeInfo::of(COUNT), 2));
    assert!(matches!(r, InsertOutcome::Replaced(1)));
    assert_eq!(world.read(e, TypeInfo::of(COUNT)), Some(&2));
}

#[test]
fn remove_then_get_not_found() {
    // remove followed by get yields "not found", and has is false
    let mut world: World<i64> = World::new();
    let e = world.entity();
    world.insert(e, DynComponent::new(TypeInfo::of(COUNT), 3));
    let removed = world.remove(e, TypeInfo::of(COUNT));
    assert!(matches!(removed, RemoveOutcome::Removed(3)));
    assert!(matches!(world.get(e, TypeInfo::of(COUNT)), SharedGrant::NotFound));
    assert!(world.read(e, TypeInfo::of(COUNT)).is_none());
    assert!(!world.has(e, TypeInfo::of(COUNT)));
}

#[test]
fn contended_slot_reports_busy() {
    let mut world: World<i64> = World::new();
    let e = world.entity();
    world.insert(e, DynComponent::new(TypeInfo::of(COUNT), 5));
    assert!(matches!(world.get(e, TypeInfo::of(COUNT)), SharedGrant::Granted(_)));
    // replacement and removal must wait for the outstanding checkout
    let offer = world.insert(e, DynComponent::new(TypeInfo::of(COUNT), 6));
    match offer {
        InsertOutcome::Busy(back) => assert_eq!(back.component, 6),
        _ => panic!("insert over a shared slot must be busy"),
    }
    assert!(matches!(world.remove(e, TypeInfo::of(COUNT)), RemoveOutcome::Busy));
    world.release_shared(e, TypeInfo::of(COUNT));
    assert!(matches!(world.remove(e, TypeInfo::of(COUNT)), RemoveOutcome::Removed(5)));
}

#[test]
fn exclusive_checkout_takes_value_out() {
    let mut world: World<i64> = World::new();
    let e = world.entity();
    world.insert(e, DynComponent::new(TypeInfo::of(COUNT), 7));
    let grant = world.get_mut(e, TypeInfo::of(COUNT));
    let v = match grant {
        ExclusiveGrant::Granted(v) => v,
        _ => panic!("exclusive checkout should be granted"),
    };
    assert_eq!(v, 7);
    // the slot still exists but nothing can be read or checked out
    assert!(world.has(e, TypeInfo::of(COUNT)));
    assert!(world.read(e, TypeInfo::of(COUNT)).is_none());
    assert!(matches!(world.get(e, TypeInfo::of(COUNT)), SharedGrant::Busy));
    assert!(matches!(world.get_mut(e, TypeInfo::of(COUNT)), ExclusiveGrant::Busy));
    world.return_exclusive(e, TypeInfo::of(COUNT), v + 1);
    assert_eq!(world.read(e, TypeInfo::of(COUNT)), Some(&8));
}

#[test]
fn entities_with_lists_holders() {
    let mut world: World<i64> = World::new();
    let e1 = world.entity();
    let e2 = world.entity();
    let e3 = world.entity();
    world.insert(e1, DynComponent::new(TypeInfo::of(COUNT), 1));
    world.insert(e2, DynComponent::new(TypeInfo::of(LABEL), 2));
    world.insert(e3, DynComponent::new(TypeInfo::of(COUNT), 3));
    let with_count = world.entities_with(TypeInfo::of(COUNT));
    assert_eq!(with_count.len(), 2);
    assert!(with_count.contains(&e1));
    assert!(with_count.contains(&e3));
    let all = world.entity_iter();
    assert_eq!(all.len(), 3);
}

#[test]
fn spawn_allocates_and_fills() {
    let mut world: World<i64> = World::new();
    let bundle = vec![
        DynComponent::new(TypeInfo::of(COUNT), 1),
        DynComponent::new(TypeInfo::of(LABEL), 2),
    ];
    let e = world.spawn(bundle);
    assert_eq!(world.read(e, TypeInfo::of(COUNT)), Some(&1));
    assert_eq!(world.read(e, TypeInfo::of(LABEL)), Some(&2));
}

#[test]
fn insert_discard_overwrites_contended_slot() {
    let mut world: World<i64> = World::new();
    let e = world.entity();
    world.insert(e, DynComponent::new(TypeInfo::of(COUNT), 1));
    assert!(matches!(world.get(e, TypeInfo::of(COUNT)), SharedGrant::Granted(_)));
    // the discarding insert replaces the slot outright
    world.insert_discard(e, DynComponent::new(TypeInfo::of(COUNT), 9));
    assert_eq!(world.read(e, TypeInfo::of(COUNT)), Some(&9));
    assert!(matches!(world.remove(e, TypeInfo::of(COUNT)), RemoveOutcome::Removed(9)));
}

#[test]
fn resources_follow_same_discipline() {
    let mut world: World<i64> = World::new();
    let t = TypeInfo::of(CONFIG);
    assert!(!world.has_resource(t));
    assert!(matches!(world.get_resource(t), SharedGrant::NotFound));
    let r = world.insert_resource(DynComponent::new(t, 100));
    assert!(matches!(r, InsertOutcome::Fresh));
    assert!(world.has_resource(t));
    assert_eq!(world.read_resource(t), Some(&100));

    assert!(matches!(world.get_resource(t), SharedGrant::Granted(_)));
    assert!(matches!(world.get_resource_mut(t), ExclusiveGrant::Busy));
    world.release_resource_shared(t);

    let v = match world.get_resource_mut(t) {
        ExclusiveGrant::Granted(v) => v,
        _ => panic!("exclusive resource checkout should be granted"),
    };
    world.return_resource_exclusive(t, v + 1);
    assert_eq!(world.read_resource(t), Some(&101));

    assert!(matches!(world.remove_resource(t), RemoveOutcome::Removed(101)));
    assert!(!world.has_resource(t));
}

#[test]
fn entity_ids_are_fresh() {
    let mut world: World<i64> = World::new();
    let a = world.entity();
    let b = world.entity();
    let c = world.entity();
    assert!(a != b && b != c && a != c);
    assert_eq!(a.as_u64(), 0);
    assert_eq!(b.as_u64(), 1);
    assert_eq!(c.as_u64(), 2);
}

#[test]
fn bundle_values_land_in_slots() {
    // each bundled tag's slot owns the bundled value; on a repeated tag the
    // last occurrence wins
    let mut world: World<i64> = World::new();
    let e = world.entity();
    world.insert_bundle(
        e,
        vec![
            DynComponent::new(TypeInfo::of(COUNT), 1),
            DynComponent::new(TypeInfo::of(LABEL), 2),
            DynComponent::new(TypeInfo::of(COUNT), 3),
        ],
    );
    assert_eq!(world.read(e, TypeInfo::of(COUNT)), Some(&3));
    assert_eq!(world.read(e, TypeInfo::of(LABEL)), Some(&2));
}

#[test]
fn builtin_events_preregistered() {
    let startup = TypeInfo::of(50);
    let tick = TypeInfo::of(51);
    let shutdown = TypeInfo::of(52);
    let mut world: World<i64> = World::with_builtin_events(startup, tick, shutdown);
    assert!(world.has_event(startup));
    assert!(world.has_event(tick));
    assert!(world.has_event(shutdown));
    assert!(!world.has_event(TypeInfo::of(53)));
    let plan = world.fire_event(tick, 5);
    assert_eq!(plan.handler_count, 0);
    assert_eq!(plan.delta_ms, None);
}
