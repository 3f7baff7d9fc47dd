//! Asset handles and load requests: the data the asset-loading plugin moves
//! around. Loading itself (file and network I/O, decoding) is the loader
//! collaborator's work outside this crate; the types here are the plain
//! values it queues and publishes through the store and the event bus.

use vstd::prelude::*;

use crate::util::TypeInfo;

verus! {

/// Marker for types that can be stored as assets.
pub trait Asset {}

/// An opaque asset identifier. The all-ones value is reserved as invalid.
#[derive(Clone, Copy, PartialEq, Eq, Structural, Hash, Debug)]
pub struct AssetId {
    id: u64,
}

impl AssetId {
    pub closed spec fn spec_id(&self) -> u64 {
        self.id
    }

    pub fn from_u64(id: u64) -> (r: AssetId)
        ensures
            r.spec_id() == id,
    {
        AssetId { id }
    }

    pub fn as_u64(&self) -> (r: u64)
        ensures
            r == self.spec_id(),
    {
        self.id
    }

    pub fn is_valid(&self) -> (r: bool)
        ensures
            r == (self.spec_id() != u64::MAX),
    {
        self.id != u64::MAX
    }
}

/// An asset value paired with the tag of its concrete type.
pub struct DynAsset<V> {
    pub type_id: TypeInfo,
    pub asset: V,
}

impl<V> DynAsset<V> {
    pub fn new(type_id: TypeInfo, asset: V) -> (r: DynAsset<V>)
        ensures
            r.type_id == type_id,
            r.asset == asset,
    {
        DynAsset { type_id, asset }
    }
}

/// A typed asset handle: the identifier together with the tag of the asset
/// type it was issued for.
#[derive(Clone, Copy, PartialEq, Eq, Structural, Hash, Debug)]
pub struct Handle {
    id: AssetId,
    type_id: TypeInfo,
}

impl Handle {
    pub closed spec fn spec_asset_id(&self) -> AssetId {
        self.id
    }

    pub closed spec fn spec_type_id(&self) -> TypeInfo {
        self.type_id
    }

    pub fn new(id: AssetId, type_id: TypeInfo) -> (r: Handle)
        ensures
            r.spec_asset_id() == id,
            r.spec_type_id() == type_id,
    {
        Handle { id, type_id }
    }

    pub fn id(&self) -> (r: AssetId)
        ensures
            r == self.spec_asset_id(),
    {
        self.id
    }

    /// Erases the handle's type: the identifier and tag are carried over
    /// unchanged.
    pub fn into_dyn(self) -> (r: DynHandle)
        ensures
            r.spec_asset_id() == self.spec_asset_id(),
            r.spec_type_id() == self.spec_type_id(),
    {
        DynHandle { id: self.id, type_id: self.type_id }
    }

    /// Recovers a typed handle from an erased one, exactly when the erased
    /// handle's tag is the expected asset type's tag.
    pub fn try_from_dyn(handle: DynHandle, expected: TypeInfo) -> (r: Option<Handle>)
        ensures
            handle.spec_type_id() == expected ==> r is Some && r->Some_0.spec_asset_id()
                == handle.spec_asset_id() && r->Some_0.spec_type_id() == expected,
            handle.spec_type_id() != expected ==> r is None,
    {
        if handle.type_id == expected {
            Some(Handle { id: handle.id, type_id: expected })
        } else {
            None
        }
    }
}

/// A type-erased asset handle.
#[derive(Clone, Copy, PartialEq, Eq, Structural, Hash, Debug)]
pub struct DynHandle {
    id: AssetId,
    type_id: TypeInfo,
}

impl DynHandle {
    pub closed spec fn spec_asset_id(&self) -> AssetId {
        self.id
    }

    pub closed spec fn spec_type_id(&self) -> TypeInfo {
        self.type_id
    }

    pub fn new(id: AssetId, type_id: TypeInfo) -> (r: DynHandle)
        ensures
            r.spec_asset_id() == id,
            r.spec_type_id() == type_id,
    {
        DynHandle { id, type_id }
    }

    pub fn id(&self) -> (r: AssetId)
        ensures
            r == self.spec_asset_id(),
    {
        self.id
    }
}

/// Where an asset comes from: a path for the loader to read, raw bytes to
/// decode, or an already-decoded value.
pub enum LoadSource<V> {
    Path(String),
    Bytes(Vec<u8>),
    Existing(DynAsset<V>),
}

/// A queued request: load `source` and publish the result under `handle`.
pub struct LoadRequest<V> {
    pub handle: Handle,
    pub source: LoadSource<V>,
}

impl<V> LoadRequest<V> {
    pub fn new(handle: Handle, source: LoadSource<V>) -> (r: LoadRequest<V>)
        ensures
            r.handle == handle,
            r.source == source,
    {
        LoadRequest { handle, source }
    }
}

/// Event payload asking the loader plugin to drain its request queue.
#[derive(Clone, Copy, PartialEq, Eq, Structural, Hash, Debug)]
pub struct LoadAssets;

/// Event payload published when an asset finished loading.
#[derive(Clone, Copy, PartialEq, Eq, Structural, Hash, Debug)]
pub struct AssetLoaded {
    pub handle: Handle,
}

} // verus!
