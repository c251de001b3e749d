//! Ontology governance core: edit routing, inference-pipeline state
//! machine, design gating, semantic bindings, the ontology model with
//! its invertible command set, derived safety-net rules and the
//! schema dependency index.

pub mod change_routing;
pub mod inference_pipeline;
pub mod text;
pub mod clock;
pub mod crypto;
pub mod model;
pub mod binding;
pub mod rule;
pub mod ir;
pub mod validate;
pub mod command;
pub mod derived_rules;
pub mod edit;
pub mod design_gate;
pub mod dependency;
pub mod cluster_checkpoint;
pub mod heuristic;
pub mod eval_fingerprint;
pub mod glossary;
pub mod concept;
pub mod column_profile;
pub mod action;
pub mod enrichment;
pub mod function;
pub mod interface;
pub mod retract;
pub mod exchange;
pub mod registry;
pub mod integrity;
pub mod community;
pub mod community_graph;
pub mod ambiguity;
pub mod binding_suggestions;
pub mod agent_view;
pub mod data_quality;
pub mod insight;
