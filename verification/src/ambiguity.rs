//! Ambiguity contexts and their resolutions.
//!
//! A column whose values cannot be read from the schema alone (numeric
//! codes, opaque short codes, a name that means different things in
//! different sources) becomes an [`AmbiguityContext`]; an
//! [`AmbiguityResolution`] records how it was resolved. Instants are
//! seconds since the Unix epoch.

use vstd::prelude::*;

use crate::design_gate::ColumnRef;
use crate::clock::{now_epoch_seconds, CLOCK_LIMIT};
use crate::heuristic::new_uuid_text;

verus! {

/// The kind of ambiguity observed.
#[derive(Debug, Clone, Copy, PartialEq, Eq, Structural)]
pub enum AmbiguityKind {
    /// Low-cardinality integer values: a coded status.
    NumericCode,
    /// Short upper-case codes mixed with longer values.
    OpaqueShortCode,
    /// One column name with diverging meanings across sources.
    OverloadedName,
}

/// A hint found in source code: suggested values and where they were
/// declared.
#[derive(Debug, Clone, PartialEq, Eq)]
pub struct RepoHint {
    pub suggested_values: String,
    pub source_file: String,
}

/// A column whose values cannot be interpreted from the schema alone.
#[derive(Debug, Clone, PartialEq, Eq)]
pub struct AmbiguityContext {
    pub id: String,
    pub source_id: String,
    pub column: ColumnRef,
    pub kind: AmbiguityKind,
    pub sample_values: Vec<String>,
    pub distinct_estimate: Option<u64>,
    pub nullable: bool,
    pub clarification_prompt: String,
    pub detection_source_hash: String,
    pub repo_hint: Option<RepoHint>,
    pub detected_at: i64,
}

impl AmbiguityContext {
    /// A context with the given id and detection time, no estimate, not
    /// nullable and no hint.
    pub fn new_with(
        id: String,
        detected_at: i64,
        source_id: String,
        column: ColumnRef,
        kind: AmbiguityKind,
        sample_values: Vec<String>,
        clarification_prompt: String,
        detection_source_hash: String,
    ) -> (r: AmbiguityContext)
        ensures
            r == (AmbiguityContext {
                id,
                source_id,
                column,
                kind,
                sample_values,
                distinct_estimate: None,
                nullable: false,
                clarification_prompt,
                detection_source_hash,
                repo_hint: None,
                detected_at,
            }),
    {
        AmbiguityContext {
            id,
            source_id,
            column,
            kind,
            sample_values,
            distinct_estimate: None,
            nullable: false,
            clarification_prompt,
            detection_source_hash,
            repo_hint: None,
            detected_at,
        }
    }

    /// A fresh context: a random UUID id, detected now, no estimate, not
    /// nullable and no hint.
    pub fn new(
        source_id: String,
        column: ColumnRef,
        kind: AmbiguityKind,
        sample_values: Vec<String>,
        clarification_prompt: String,
        detection_source_hash: String,
    ) -> (r: AmbiguityContext)
        ensures
            r.source_id == source_id,
            r.column == column,
            r.kind == kind,
            r.sample_values == sample_values,
            r.distinct_estimate is None,
            !r.nullable,
            r.clarification_prompt == clarification_prompt,
            r.detection_source_hash == detection_source_hash,
            r.repo_hint is None,
            crate::heuristic::uuid_v4_text(r.id@),
            -CLOCK_LIMIT <= r.detected_at <= CLOCK_LIMIT,
    {
        let id = new_uuid_text();
        let now = now_epoch_seconds();
        Self::new_with(
            id,
            now,
            source_id,
            column,
            kind,
            sample_values,
            clarification_prompt,
            detection_source_hash,
        )
    }

    /// The context with a repository hint.
    pub fn with_repo_hint(self, hint: RepoHint) -> (r: AmbiguityContext)
        ensures
            r == (AmbiguityContext { repo_hint: Some(hint), ..self }),
    {
        AmbiguityContext { repo_hint: Some(hint), ..self }
    }

    /// The context with a distinct-value estimate.
    pub fn with_distinct_estimate(self, estimate: u64) -> (r: AmbiguityContext)
        ensures
            r == (AmbiguityContext { distinct_estimate: Some(estimate), ..self }),
    {
        AmbiguityContext { distinct_estimate: Some(estimate), ..self }
    }

    /// The context marked nullable or not.
    pub fn with_nullable(self, nullable: bool) -> (r: AmbiguityContext)
        ensures
            r == (AmbiguityContext { nullable, ..self }),
    {
        AmbiguityContext { nullable, ..self }
    }
}

/// One raw value of a value map with its display and definition.
#[derive(Debug, Clone, PartialEq, Eq)]
pub struct ValueMapEntry {
    pub value: String,
    pub display: String,
    pub definition: Option<String>,
}

/// How an ambiguity was resolved.
#[derive(Debug, Clone, PartialEq, Eq)]
pub enum AmbiguityMapping {
    /// Each raw value with its meaning.
    ValueMap { entries: Vec<ValueMapEntry> },
    /// The raw values are codes of an existing code system.
    CodeSystemRef { code_system_id: String },
    /// The column means this concept on this source.
    ConceptRef { concept_id: String },
}

/// A resolution of an ambiguity context.
#[derive(Debug, Clone, PartialEq, Eq)]
pub struct AmbiguityResolution {
    pub id: String,
    pub context_id: String,
    /// Hash of the context when it was resolved; a context whose hash
    /// differs makes the resolution stale.
    pub context_source_hash: String,
    pub mapping: AmbiguityMapping,
    pub resolved_at: i64,
    pub resolved_by_user_id: Option<String>,
    pub supersedes: Option<String>,
    pub revoked_at: Option<i64>,
}

impl AmbiguityResolution {
    /// A resolution with the given id and time, by no user, superseding
    /// nothing and not revoked.
    pub fn new_with(
        id: String,
        resolved_at: i64,
        context_id: String,
        context_source_hash: String,
        mapping: AmbiguityMapping,
    ) -> (r: AmbiguityResolution)
        ensures
            r == (AmbiguityResolution {
                id,
                context_id,
                context_source_hash,
                mapping,
                resolved_at,
                resolved_by_user_id: None,
                supersedes: None,
                revoked_at: None,
            }),
    {
        AmbiguityResolution {
            id,
            context_id,
            context_source_hash,
            mapping,
            resolved_at,
            resolved_by_user_id: None,
            supersedes: None,
            revoked_at: None,
        }
    }

    /// A fresh resolution: a random UUID id, resolved now, by no user,
    /// superseding nothing and not revoked.
    pub fn new(context_id: String, context_source_hash: String, mapping: AmbiguityMapping) -> (r: AmbiguityResolution)
        ensures
            r.context_id == context_id,
            r.context_source_hash == context_source_hash,
            r.mapping == mapping,
            r.resolved_by_user_id is None,
            r.supersedes is None,
            r.revoked_at is None,
            crate::heuristic::uuid_v4_text(r.id@),
            -CLOCK_LIMIT <= r.resolved_at <= CLOCK_LIMIT,
    {
        let id = new_uuid_text();
        let now = now_epoch_seconds();
        Self::new_with(id, now, context_id, context_source_hash, mapping)
    }
}

} // verus!
