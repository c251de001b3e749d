//! Conversation starters derived from an ontology's structure.

use vstd::prelude::*;

verus! {

/// A suggested question with its category and the tool to answer it.
#[derive(Debug, Clone, PartialEq, Eq)]
pub struct InsightHint {
    /// A question a data analyst would ask.
    pub question: String,
    /// "trend", "distribution", "anomaly", "relationship" or "summary".
    pub category: String,
    /// "query_graph" or "execute_analysis".
    pub suggested_tool: String,
}

} // verus!
