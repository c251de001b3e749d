//! The slice of an ontology an assistant model reads: labels, logical
//! types and descriptions, without mapping internals or provenance.

use vstd::prelude::*;
use vstd::string::StrSliceExecFns;

verus! {

/// An ontology as an assistant model sees it.
#[derive(Debug, Clone, PartialEq, Eq)]
pub struct AgentOntologyView {
    pub id: String,
    pub name: String,
    pub description: Option<String>,
    pub node_types: Vec<AgentNodeView>,
    pub edge_types: Vec<AgentEdgeView>,
    pub glossary: Vec<AgentGlossaryView>,
}

/// A node type as an assistant model sees it.
#[derive(Debug, Clone, PartialEq, Eq)]
pub struct AgentNodeView {
    pub id: String,
    pub label: String,
    pub description: Option<String>,
    /// Labels of the interfaces the node type implements.
    pub implements: Vec<String>,
    pub properties: Vec<AgentPropertyView>,
}

/// An edge type as an assistant model sees it, endpoints by label.
#[derive(Debug, Clone, PartialEq, Eq)]
pub struct AgentEdgeView {
    pub id: String,
    pub label: String,
    pub source: String,
    pub target: String,
    pub cardinality: String,
    pub description: Option<String>,
    pub properties: Vec<AgentPropertyView>,
}

/// A property as an assistant model sees it.
#[derive(Debug, Clone, PartialEq, Eq)]
pub struct AgentPropertyView {
    pub name: String,
    pub property_type: String,
    pub nullable: bool,
    pub description: Option<String>,
    pub aliases: Vec<String>,
    pub aggregation_role: Option<String>,
    /// Leading codes of a required value-set binding.
    pub allowed_values: Option<Vec<String>>,
    /// Template of a notation-pattern binding.
    pub format_pattern: Option<String>,
    /// Term of a glossary binding.
    pub glossary_term: Option<String>,
}

/// A glossary term as an assistant model sees it.
#[derive(Debug, Clone, PartialEq, Eq)]
pub struct AgentGlossaryView {
    pub term: String,
    pub display_name: Option<String>,
    pub description: Option<String>,
    pub aliases: Vec<String>,
}

/// A text as an optional field: `None` when it is empty.
pub fn present(s: &str) -> (r: Option<String>)
    ensures
        match r {
            Some(t) => s@.len() > 0 && t@ == s@,
            None => s@.len() == 0,
        },
{
    if s.unicode_len() == 0 {
        None
    } else {
        Some(String::from_str(s))
    }
}

} // verus!
