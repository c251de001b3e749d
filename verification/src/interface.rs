//! Interfaces: property and edge slots that every implementing node
//! type must provide, so a query can range over all implementers.

use vstd::prelude::*;

use crate::ir::PropertyType;
use crate::rule::Bilingual;

verus! {

/// A property an implementer must carry.
#[derive(Debug, Clone, PartialEq, Eq)]
pub struct InterfaceProperty {
    pub name: String,
    pub property_type: PropertyType,
    pub nullable: bool,
    pub expected_property_id: Option<String>,
}

/// An edge an implementer must take part in, as source or as target.
#[derive(Debug, Clone, PartialEq, Eq)]
pub struct InterfaceEdge {
    pub label: String,
    pub as_source: bool,
    pub expected_edge_type_id: Option<String>,
}

/// An abstract contract over node types; it has no instances of its own.
#[derive(Debug, Clone, PartialEq, Eq)]
pub struct InterfaceDef {
    pub id: String,
    pub label: String,
    pub display_name: Bilingual,
    pub description: Bilingual,
    pub required_properties: Vec<InterfaceProperty>,
    pub required_edges: Vec<InterfaceEdge>,
}

} // verus!
