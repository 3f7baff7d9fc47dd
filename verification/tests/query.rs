use kyrene::component::DynComponent;
use kyrene::query::{QueryTerm, ZipStream};
use kyrene::util::TypeInfo;
use kyrene::world::World;

const POS: u64 = 1;
const VEL: u64 = 2;

#[test]
fn query_matches_component_signature() {
    let mut world: World<i64> = World::new();
    let both = world.entity();
    let only_pos = world.entity();
    let neither = world.entity();
    world.insert(both, DynComponent::new(TypeInfo::of(POS), 1));
    world.insert(both, DynComponent::new(TypeInfo::of(VEL), 2));
    world.insert(only_pos, DynComponent::new(TypeInfo::of(POS), 3));

    let q = world.query(vec![
        QueryTerm::EntityId,
        QueryTerm::Read(TypeInfo::of(POS)),
        QueryTerm::Write(TypeInfo::of(VEL)),
    ]);
    assert!(q.matches(both));
    assert!(!q.matches(only_pos));
    assert!(!q.matches(neither));
    assert_eq!(q.iter().len(), 1);
}

#[test]
fn entity_id_term_matches_every_known_entity() {
    let mut world: World<i64> = World::new();
    let a = world.entity();
    let b = world.entity();
    world.insert(a, DynComponent::new(TypeInfo::of(POS), 1));
    world.insert(b, DynComponent::new(TypeInfo::of(VEL), 2));
    let q = world.query(vec![QueryTerm::EntityId]);
    assert!(q.matches(a));
    assert!(q.matches(b));
    assert_eq!(q.iter().len(), 2);
}

#[test]
fn query_snapshot_fixed_at_construction() {
    // membership is computed at construction: an entity given the component
    // afterwards is not seen until the query is rebuilt
    let mut world: World<i64> = World::new();
    let e1 = world.entity();
    world.insert(e1, DynComponent::new(TypeInfo::of(POS), 1));
    let q = world.query(vec![QueryTerm::Read(TypeInfo::of(POS))]);
    assert!(q.matches(e1));

    let e2 = world.entity();
    world.insert(e2, DynComponent::new(TypeInfo::of(POS), 2));
    assert!(!q.matches(e2));
    assert_eq!(q.iter().len(), 1);

    let fresh = world.query(vec![QueryTerm::Read(TypeInfo::of(POS))]);
    assert!(fresh.matches(e2));
    assert_eq!(fresh.iter().len(), 2);
}

#[test]
fn removed_entity_stays_in_snapshot() {
    // the flip side of snapshot semantics: removal after construction does
    // not shrink the snapshot either
    let mut world: World<i64> = World::new();
    let e = world.entity();
    world.insert(e, DynComponent::new(TypeInfo::of(POS), 1));
    let q = world.query(vec![QueryTerm::Read(TypeInfo::of(POS))]);
    world.remove(e, TypeInfo::of(POS));
    assert!(q.matches(e));
    assert!(!world.has(e, TypeInfo::of(POS)));
}

#[test]
fn zip_stops_at_shorter_stream() {
    let left = vec![1i64, 2, 3];
    let right = vec!["a", "b"];
    let pairs = ZipStream::new(left, right).collect();
    assert_eq!(pairs, vec![(1, "a"), (2, "b")]);

    let empty: Vec<i64> = Vec::new();
    let pairs2 = ZipStream::new(empty, vec![5u8]).collect();
    assert!(pairs2.is_empty());
}
