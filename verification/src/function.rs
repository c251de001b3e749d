//! Derived-value functions over properties.

use vstd::prelude::*;

use crate::ir::PropertyType;
use crate::rule::Bilingual;

verus! {

/// A property a function reads.
#[derive(Debug, Clone, PartialEq, Eq)]
pub struct PropertyDependency {
    pub node_type_id: String,
    pub property_id: String,
}

/// How a function computes its value.
#[derive(Debug, Clone, PartialEq, Eq)]
pub enum FunctionExpression {
    SqlExpr { expression: String },
    CypherExpr { expression: String },
    BuiltIn { name: String },
    Udf { artifact_ref: String },
}

/// Whether a function has side effects.
#[derive(Debug, Clone, Copy, PartialEq, Eq, Structural)]
pub enum FunctionPurity {
    Pure,
    Impure,
}

impl Default for FunctionPurity {
    fn default() -> (r: FunctionPurity)
        ensures
            r == FunctionPurity::Pure,
    {
        FunctionPurity::Pure
    }
}


/// A named computation over properties, with its return type, purity and
/// the properties and edge types it reads.
#[derive(Debug, Clone, PartialEq, Eq)]
pub struct FunctionDef {
    pub id: String,
    pub name: String,
    pub description: Bilingual,
    pub expression: FunctionExpression,
    pub return_type: PropertyType,
    pub purity: FunctionPurity,
    pub property_dependencies: Vec<PropertyDependency>,
    pub edge_dependencies: Vec<String>,
}

} // verus!
