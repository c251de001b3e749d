//! Enrichments: node-type attributes fetched from outside sources.

use vstd::prelude::*;

use crate::model::{copy_opt_text, opt_text, DeepCopy};
use crate::rule::{Bilingual, BilingualModel};

verus! {

/// Where an enrichment reads from.
#[derive(Debug, Clone, PartialEq, Eq)]
pub enum ExternalSourceRef {
    Http { endpoint_template: String, auth_secret_id: Option<String> },
    SiblingOntology { workspace_slug: String, node_type_id: String },
}

/// When an enrichment is refreshed.
#[derive(Debug, Clone, PartialEq, Eq)]
pub enum RefreshPolicy {
    OnAccess,
    Cached { ttl_seconds: u64 },
    Scheduled { cron_expression: String },
}

impl Default for RefreshPolicy {
    fn default() -> (r: RefreshPolicy)
        ensures
            r == RefreshPolicy::OnAccess,
    {
        RefreshPolicy::OnAccess
    }
}

impl RefreshPolicy {
    /// Cache for `window_secs` seconds; a negative window counts as zero.
    pub fn cached(window_secs: i64) -> (r: RefreshPolicy)
        ensures
            r == (RefreshPolicy::Cached {
                ttl_seconds: if window_secs < 0 {
                    0
                } else {
                    window_secs as u64
                },
            }),
    {
        let secs: u64 = if window_secs < 0 {
            0
        } else {
            window_secs as u64
        };
        RefreshPolicy::Cached { ttl_seconds: secs }
    }
}


/// A lookup that fills a property of a node type from an external
/// source, joined on another of its properties.
#[derive(Debug, Clone, PartialEq, Eq)]
pub struct EnrichmentDef {
    pub id: String,
    pub name: String,
    pub description: Bilingual,
    pub target_node_type_id: String,
    pub join_key_property_id: String,
    pub target_property_id: String,
    pub external_source: ExternalSourceRef,
    pub refresh: RefreshPolicy,
}

/// Model of an [`ExternalSourceRef`].
pub enum ExternalSourceModel {
    Http { endpoint_template: Seq<char>, auth_secret_id: Option<Seq<char>> },
    SiblingOntology { workspace_slug: Seq<char>, node_type_id: Seq<char> },
}

impl View for ExternalSourceRef {
    type V = ExternalSourceModel;

    open spec fn view(&self) -> ExternalSourceModel {
        match self {
            ExternalSourceRef::Http { endpoint_template, auth_secret_id } => ExternalSourceModel::Http {
                endpoint_template: endpoint_template@,
                auth_secret_id: opt_text(*auth_secret_id),
            },
            ExternalSourceRef::SiblingOntology { workspace_slug, node_type_id } =>
                ExternalSourceModel::SiblingOntology {
                workspace_slug: workspace_slug@,
                node_type_id: node_type_id@,
            },
        }
    }
}

impl DeepCopy for ExternalSourceRef {
    fn deep_copy(&self) -> (r: ExternalSourceRef) {
        match self {
            ExternalSourceRef::Http { endpoint_template, auth_secret_id } => ExternalSourceRef::Http {
                endpoint_template: endpoint_template.clone(),
                auth_secret_id: copy_opt_text(auth_secret_id),
            },
            ExternalSourceRef::SiblingOntology { workspace_slug, node_type_id } =>
                ExternalSourceRef::SiblingOntology {
                workspace_slug: workspace_slug.clone(),
                node_type_id: node_type_id.clone(),
            },
        }
    }
}

/// Model of a [`RefreshPolicy`].
pub enum RefreshModel {
    OnAccess,
    Cached { ttl_seconds: u64 },
    Scheduled { cron_expression: Seq<char> },
}

impl View for RefreshPolicy {
    type V = RefreshModel;

    open spec fn view(&self) -> RefreshModel {
        match self {
            RefreshPolicy::OnAccess => RefreshModel::OnAccess,
            RefreshPolicy::Cached { ttl_seconds } => RefreshModel::Cached { ttl_seconds: *ttl_seconds },
            RefreshPolicy::Scheduled { cron_expression } => RefreshModel::Scheduled {
                cron_expression: cron_expression@,
            },
        }
    }
}

impl DeepCopy for RefreshPolicy {
    fn deep_copy(&self) -> (r: RefreshPolicy) {
        match self {
            RefreshPolicy::OnAccess => RefreshPolicy::OnAccess,
            RefreshPolicy::Cached { ttl_seconds } => RefreshPolicy::Cached { ttl_seconds: *ttl_seconds },
            RefreshPolicy::Scheduled { cron_expression } => RefreshPolicy::Scheduled {
                cron_expression: cron_expression.clone(),
            },
        }
    }
}

/// Model of an [`EnrichmentDef`].
pub struct EnrichmentModel {
    pub id: Seq<char>,
    pub name: Seq<char>,
    pub description: BilingualModel,
    pub target_node_type_id: Seq<char>,
    pub join_key_property_id: Seq<char>,
    pub target_property_id: Seq<char>,
    pub external_source: ExternalSourceModel,
    pub refresh: RefreshModel,
}

impl View for EnrichmentDef {
    type V = EnrichmentModel;

    open spec fn view(&self) -> EnrichmentModel {
        EnrichmentModel {
            id: self.id@,
            name: self.name@,
            description: self.description@,
            target_node_type_id: self.target_node_type_id@,
            join_key_property_id: self.join_key_property_id@,
            target_property_id: self.target_property_id@,
            external_source: self.external_source@,
            refresh: self.refresh@,
        }
    }
}

impl DeepCopy for EnrichmentDef {
    fn deep_copy(&self) -> (r: EnrichmentDef) {
        EnrichmentDef {
            id: self.id.clone(),
            name: self.name.clone(),
            description: self.description.deep_copy(),
            target_node_type_id: self.target_node_type_id.clone(),
            join_key_property_id: self.join_key_property_id.clone(),
            target_property_id: self.target_property_id.clone(),
            external_source: self.external_source.deep_copy(),
            refresh: self.refresh.deep_copy(),
        }
    }
}

} // verus!
