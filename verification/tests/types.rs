use kyrene::asset::{AssetId, AssetLoaded, DynAsset, DynHandle, Handle, LoadRequest, LoadSource};
use kyrene::util::{TypeIdHasher, TypeIdSet, TypeInfo};
use kyrene::window::{RedrawRequested, WindowResized, WindowSettings};
use kyrene::world::{WorldShutdown, WorldStartup, WorldTick};

const TEXTURE: u64 = 7;
const MESH: u64 = 8;

#[test]
fn type_info_tags_compare_by_value() {
    let a = TypeInfo::of(3);
    let b = TypeInfo::of(3);
    let c = TypeInfo::of(4);
    assert_eq!(a, b);
    assert_ne!(a, c);
    assert_eq!(a.type_id, 3);
}

#[test]
fn type_id_hasher_is_identity_on_tags() {
    let mut h = TypeIdHasher::new();
    assert_eq!(h.finish(), 0);
    h.write_u64(0xdead_beef);
    assert_eq!(h.finish(), 0xdead_beef);
}

#[test]
fn tag_set_operations() {
    let mut s = TypeIdSet::new();
    assert!(!s.contains_type(TypeInfo::of(1)));
    assert!(s.insert_for(TypeInfo::of(1)));
    assert!(!s.insert_for(TypeInfo::of(1)));
    assert!(s.insert_for(TypeInfo::of(2)));
    assert!(s.contains_type(TypeInfo::of(1)));
    assert_eq!(s.iter_tags().len(), 2);

    let mut other = TypeIdSet::new();
    other.insert_for(TypeInfo::of(3));
    assert!(s.is_disjoint(&other));
    other.insert_for(TypeInfo::of(2));
    assert!(!s.is_disjoint(&other));

    assert!(s.remove_for(TypeInfo::of(1)));
    assert!(!s.remove_for(TypeInfo::of(1)));
    assert_eq!(s.iter_tags().len(), 1);

    s.extend(&other);
    assert!(s.contains_type(TypeInfo::of(3)));
    assert!(s.contains_type(TypeInfo::of(2)));
    assert_eq!(s.iter_tags().len(), 2);
}

#[test]
fn handle_roundtrip_through_dyn() {
    let id = AssetId::from_u64(12);
    let handle = Handle::new(id, TypeInfo::of(TEXTURE));
    assert_eq!(handle.id(), id);
    let dyn_handle = handle.into_dyn();
    assert_eq!(dyn_handle.id(), id);
    let back = Handle::try_from_dyn(dyn_handle, TypeInfo::of(TEXTURE));
    assert_eq!(back, Some(handle));
    let wrong = Handle::try_from_dyn(dyn_handle, TypeInfo::of(MESH));
    assert!(wrong.is_none());
}

#[test]
fn asset_id_validity() {
    assert!(AssetId::from_u64(0).is_valid());
    assert!(!AssetId::from_u64(u64::MAX).is_valid());
    assert_eq!(AssetId::from_u64(9).as_u64(), 9);
}

#[test]
fn dyn_asset_and_load_request_carry_values() {
    let asset = DynAsset::new(TypeInfo::of(TEXTURE), vec![1u8, 2, 3]);
    assert_eq!(asset.type_id, TypeInfo::of(TEXTURE));
    let handle = Handle::new(AssetId::from_u64(1), TypeInfo::of(TEXTURE));
    let request: LoadRequest<Vec<u8>> =
        LoadRequest::new(handle, LoadSource::Bytes(vec![0u8; 4]));
    assert_eq!(request.handle, handle);
    match request.source {
        LoadSource::Bytes(b) => assert_eq!(b.len(), 4),
        _ => panic!("source should be the bytes"),
    }
    let by_path: LoadRequest<Vec<u8>> =
        LoadRequest::new(handle, LoadSource::Path(String::from("img.png")));
    assert!(matches!(by_path.source, LoadSource::Path(_)));
    let loaded = AssetLoaded { handle };
    assert_eq!(loaded.handle.id(), handle.id());
    let dh = DynHandle::new(AssetId::from_u64(5), TypeInfo::of(MESH));
    assert_eq!(dh.id().as_u64(), 5);
}

#[test]
fn builtin_event_payloads() {
    let tick = WorldTick { tick: 4 };
    assert_eq!(tick.tick, 4);
    let _ = WorldStartup;
    let _ = WorldShutdown;
    let _ = RedrawRequested;
    let resized = WindowResized { new_width: 640, new_height: 480 };
    assert_eq!(resized.new_width, 640);
    let settings = WindowSettings::new(String::from("demo"), 800, 600);
    assert_eq!(settings.title, "demo");
    assert_eq!(settings.width, 800);
    assert_eq!(settings.height, 600);
}
