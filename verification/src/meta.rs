//! Metadata attached to syntax tree nodes and IR instructions.
use vstd::prelude::*;

use crate::frontend::ast::Type;

verus! {

/// A value together with a piece of metadata (a location, a type, a result entity, ...).
#[derive(Debug, PartialEq)]
pub struct Meta<ItemT, MetaT> {
    pub item: ItemT,
    pub meta: MetaT,
}

impl<ItemT, MetaT> Meta<ItemT, MetaT> {
    /// wrap `item` with `meta`
    pub fn new(item: ItemT, meta: MetaT) -> (r: Self)
        ensures
            r.item == item,
            r.meta == meta,
    {
        Meta { item, meta }
    }

    /// borrow the metadata
    pub fn get_meta(&self) -> (r: &MetaT)
        ensures
            *r == self.meta,
    {
        &self.meta
    }
}

/// metadata type for location data (used by the parser)
#[derive(Debug, PartialEq, Eq, Structural, Clone, Copy)]
pub struct LocationMeta {
    /// byte offset from the beginning of source code
    pub offset: usize,
}

impl LocationMeta {
    /// location at the given byte offset
    pub fn from_offset(offset: usize) -> (r: LocationMeta)
        ensures
            r.offset == offset,
    {
        LocationMeta { offset }
    }
}

impl From<usize> for LocationMeta {
    fn from(offset: usize) -> (r: Self) {
        LocationMeta { offset }
    }
}

impl vstd::std_specs::convert::FromSpecImpl<usize> for LocationMeta {
    open spec fn obeys_from_spec() -> bool {
        true
    }

    open spec fn from_spec(offset: usize) -> LocationMeta {
        LocationMeta { offset }
    }
}

/// metadata type for typed syntax tree nodes (used after type checking)
#[derive(Debug, PartialEq)]
pub struct TypeMeta {
    pub t: Type,
}

impl TypeMeta {
    /// copy of the metadata, with an equal type
    pub fn copy(&self) -> (r: TypeMeta)
        ensures
            r.t@ == self.t@,
    {
        TypeMeta { t: self.t.copy() }
    }
}

/// anything that knows its location in the source code
pub trait GetLocation {
    fn get_location(&self) -> LocationMeta;
}

impl<ItemT> GetLocation for Meta<ItemT, LocationMeta> {
    fn get_location(&self) -> (r: LocationMeta)
        ensures
            r == self.meta,
    {
        self.meta
    }
}

/// anything that has a (language level) type
pub trait GetType {
    fn get_type(&self) -> Type;
}

impl<ItemT> GetType for Meta<ItemT, TypeMeta> {
    fn get_type(&self) -> (r: Type)
        ensures
            r@ == self.meta.t@,
    {
        self.meta.t.copy()
    }
}

} // verus!
