//! Data-quality dimensions and how a measure's score is computed.

use vstd::prelude::*;

verus! {

/// A data-quality dimension.
#[derive(Debug, Clone, Copy, PartialEq, Eq, Structural)]
pub enum DataQualityDimensionKind {
    Completeness,
    Validity,
    Uniqueness,
    Consistency,
    Timeliness,
    /// Needs a ground-truth comparator.
    Accuracy,
}

/// How a measure's score is computed.
#[derive(Debug, Clone, PartialEq, Eq)]
pub enum DataQualityComputationKind {
    /// The share of the population that passes a rule.
    Rule { rule_id: String },
    /// A SQL assertion yielding a score between zero and one.
    SqlAssertion { query: String },
}


/// What a data-quality measure is about: a node type or one of its
/// properties.
#[derive(Debug, Clone, PartialEq, Eq)]
pub enum DataQualityTarget {
    NodeType { node_type_id: String },
    Property { node_type_id: String, property_id: String },
}

} // verus!
