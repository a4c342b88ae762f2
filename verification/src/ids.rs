//! Opaque handles used throughout the world model.
//!
//! A `Handle` pairs a slot index with a generation counter, so that a handle
//! left over from a destroyed slot is detectable in O(1). Typed wrappers
//! (`EntityId`, `SiteId`) keep the subsystems from mixing their handles up.
//! The all-zero handle is the distinguished null value: stores hand out
//! generations starting at 1, so null never resolves to live data.

use vstd::prelude::*;

verus! {

/// An untyped generational handle: a slot index paired with a generation tag.
#[derive(Clone, Copy, PartialEq, Eq, Structural, Debug, Hash)]
pub struct Handle {
    pub idx: u32,
    pub gen: u32,
}

/// The null handle: no store ever issues generation 0.
pub open spec fn null_handle() -> Handle {
    Handle { idx: 0, gen: 0 }
}

impl Handle {
    pub fn null() -> (r: Handle)
        ensures
            r == null_handle(),
    {
        Handle { idx: 0, gen: 0 }
    }

    pub fn is_null(&self) -> (r: bool)
        ensures
            r == (*self == null_handle()),
    {
        self.idx == 0 && self.gen == 0
    }
}

/// A generational handle into the entity store.
#[derive(Clone, Copy, PartialEq, Eq, Structural, Debug, Hash)]
pub struct EntityId {
    pub idx: u32,
    pub gen: u32,
}

/// The null entity: lookups that fail resolve to it.
pub open spec fn null_entity() -> EntityId {
    EntityId { idx: 0, gen: 0 }
}

impl EntityId {
    pub fn null() -> (r: EntityId)
        ensures
            r == null_entity(),
    {
        EntityId { idx: 0, gen: 0 }
    }

    pub fn is_null(&self) -> (r: bool)
        ensures
            r == (*self == null_entity()),
    {
        self.idx == 0 && self.gen == 0
    }

    pub open spec fn spec_handle(self) -> Handle {
        Handle { idx: self.idx, gen: self.gen }
    }

    pub fn to_handle(self) -> (r: Handle)
        ensures
            r == self.spec_handle(),
    {
        Handle { idx: self.idx, gen: self.gen }
    }

    pub fn from_handle(h: Handle) -> (r: EntityId)
        ensures
            r.spec_handle() == h,
    {
        EntityId { idx: h.idx, gen: h.gen }
    }
}

/// A handle into the spatial graph. Sites are never removed, so the index
/// alone identifies a node; generation 1 marks a real site.
#[derive(Clone, Copy, PartialEq, Eq, Structural, Debug, Hash)]
pub struct SiteId {
    pub idx: u32,
    pub gen: u32,
}

/// The null site: entities not bound to any site carry it.
pub open spec fn null_site() -> SiteId {
    SiteId { idx: 0, gen: 0 }
}

impl SiteId {
    pub fn null() -> (r: SiteId)
        ensures
            r == null_site(),
    {
        SiteId { idx: 0, gen: 0 }
    }

    pub fn is_null(&self) -> (r: bool)
        ensures
            r == (*self == null_site()),
    {
        self.idx == 0 && self.gen == 0
    }

    pub open spec fn spec_handle(self) -> Handle {
        Handle { idx: self.idx, gen: self.gen }
    }

    pub fn to_handle(self) -> (r: Handle)
        ensures
            r == self.spec_handle(),
    {
        Handle { idx: self.idx, gen: self.gen }
    }

    pub fn from_handle(h: Handle) -> (r: SiteId)
        ensures
            r.spec_handle() == h,
    {
        SiteId { idx: h.idx, gen: h.gen }
    }
}

} // verus!
