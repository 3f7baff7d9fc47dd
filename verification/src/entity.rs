//! Entity identifiers and their allocator.
//!
//! An entity is an opaque 64-bit identifier carrying no data of its own. The
//! allocator hands identifiers out monotonically, so within one allocator's
//! lifetime an identifier is never issued twice.

use vstd::prelude::*;

verus! {

/// An opaque identifier grouping zero or more components.
#[derive(Clone, Copy, PartialEq, Eq, Structural, Hash, Debug)]
pub struct Entity {
    id: u64,
}

impl Entity {
    pub closed spec fn spec_id(&self) -> u64 {
        self.id
    }

    pub fn from_u64(id: u64) -> (r: Entity)
        ensures
            r.spec_id() == id,
    {
        Entity { id }
    }

    pub fn as_u64(&self) -> (r: u64)
        ensures
            r == self.spec_id(),
    {
        self.id
    }
}

/// The entity allocator: issues identifiers counting up from zero.
pub struct Entities {
    next_id: u64,
}

impl Entities {
    /// The identifier the next allocation will return.
    pub closed spec fn spec_next_id(&self) -> u64 {
        self.next_id
    }

    pub fn new() -> (r: Entities)
        ensures
            r.spec_next_id() == 0,
    {
        Entities { next_id: 0 }
    }

    /// The identifier the next allocation will return.
    pub fn peek_next_id(&self) -> (r: u64)
        ensures
            r == self.spec_next_id(),
    {
        self.next_id
    }

    /// Issues a fresh identifier: equal to none issued before (they are all
    /// smaller) and never issued again (later ones are all larger).
    pub fn allocate(&mut self) -> (r: Entity)
        requires
            old(self).spec_next_id() < u64::MAX,
        ensures
            r.spec_id() == old(self).spec_next_id(),
            final(self).spec_next_id() == old(self).spec_next_id() + 1,
    {
        let id = self.next_id;
        self.next_id = self.next_id + 1;
        Entity { id }
    }
}

impl Default for Entities {
    fn default() -> (r: Entities)
        ensures
            r.spec_next_id() == 0,
    {
        Entities::new()
    }
}

} // verus!
