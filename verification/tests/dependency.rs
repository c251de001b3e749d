use ox_ontology::registry::{ConceptMapDef, ValueSetDef, ValueSetIncludeRule, ValueSetSelector};
use ox_ontology::binding::{BindingStrength, PropertyBinding};
use ox_ontology::dependency::{DependencyKind, SchemaDependencyGraph, SchemaEntityRef};
use ox_ontology::ir::{
    Cardinality, EdgeTypeDef, LinkMappingDef, LinkMappingKind, NodeTypeDef, ObjectMappingDef,
    OntologyIR, PropertyDef, PropertyLocation, PropertyMapping, RelationEndpoint,
};
use ox_ontology::rule::{
    Bilingual, ConstraintTarget, EnforcementKind, RuleActivationKind, RuleDef, RuleKind,
    RuleOrigin, Severity, ShaclConstraint,
};

fn prop(id: &str, name: &str) -> PropertyDef {
    PropertyDef { id: id.to_string(), name: name.to_string(), ..Default::default() }
}

fn sample_user_ontology() -> OntologyIR {
    let mut email = prop("p-email", "email");
    email.bindings.push(PropertyBinding::ValueSet {
        id: "vs-domains".to_string(),
        strength: BindingStrength::Required,
        concept_map_id: None,
        valid_from: None,
        valid_to: None,
    });
    let user = NodeTypeDef {
        id: "n-user".to_string(),
        label: "User".to_string(),
        properties: vec![prop("p-name", "name"), email],
        rules: vec!["r-user".to_string()],
        ..Default::default()
    };
    let order = NodeTypeDef {
        id: "n-order".to_string(),
        label: "Order".to_string(),
        properties: vec![prop("p-total", "total")],
        ..Default::default()
    };
    let placed = EdgeTypeDef {
        id: "e-placed".to_string(),
        label: "PLACED".to_string(),
        source_node_id: "n-user".to_string(),
        target_node_id: "n-order".to_string(),
        cardinality: Cardinality::OneToMany,
        properties: vec![prop("p-at", "at")],
        ..Default::default()
    };
    let rule = RuleDef {
        id: "r-user".to_string(),
        name: Bilingual::default(),
        description: String::new(),
        rationale: Bilingual::default(),
        kind: RuleKind::PropertyShape {
            target_node_type_id: "n-user".to_string(),
            target_property_id: "p-email".to_string(),
        },
        severity: Severity::Violation,
        enforcement: EnforcementKind::Write,
        activation: RuleActivationKind::OnAction { action_id: "a-signup".to_string() },
        origin: RuleOrigin::Authored,
        constraints: vec![ShaclConstraint::InValueSet {
            target: ConstraintTarget::Inherit,
            value_set_id: "vs-domains".to_string(),
        }],
        valid_from: None,
        valid_to: None,
        sh_message: None,
    };
    let om = ObjectMappingDef {
        id: "om-users".to_string(),
        source_id: "src".to_string(),
        relation: "users".to_string(),
        node_type_id: "n-user".to_string(),
        precedence: 0,
        property_mappings: vec![PropertyMapping {
            property_id: "p-name".to_string(),
            location: PropertyLocation::Column { column: "name".to_string() },
        }],
    };
    let lm = LinkMappingDef {
        id: "lm-placed".to_string(),
        edge_type_id: "e-placed".to_string(),
        source_endpoint: RelationEndpoint { source_id: "src".to_string(), relation: "users".to_string() },
        target_endpoint: RelationEndpoint { source_id: "src".to_string(), relation: "orders".to_string() },
        kind: LinkMappingKind::ForeignKey,
    };
    OntologyIR {
        id: "ont".to_string(),
        name: "Sample".to_string(),
        node_types: vec![user, order],
        edge_types: vec![placed],
        rules: vec![rule],
        object_mappings: vec![om],
        link_mappings: vec![lm],
        ..Default::default()
    }
}

#[test]
fn build_does_not_panic_on_sample_ontology() {
    let ontology = sample_user_ontology();
    let graph = SchemaDependencyGraph::build(&ontology);
    assert!(graph.edge_count() > 0, "sample ontology must produce some edges");
}

#[test]
fn property_of_edge_links_node_to_property() {
    let ontology = sample_user_ontology();
    let graph = SchemaDependencyGraph::build(&ontology);
    let user_node = &ontology.node_types[0];
    let user_ref = SchemaEntityRef::NodeType { id: user_node.id.clone() };
    let edges = graph.dependents_of(&user_ref);
    assert!(
        edges.iter().any(|e| e.kind == DependencyKind::PropertyOf),
        "node `{}` should have property-of dependents: {edges:#?}",
        user_node.label
    );
}

#[test]
fn edge_endpoints_register_source_and_target_dependencies() {
    let ontology = sample_user_ontology();
    let graph = SchemaDependencyGraph::build(&ontology);
    let mut saw_source = false;
    let mut saw_target = false;
    for edge in &ontology.edge_types {
        let src = SchemaEntityRef::NodeType { id: edge.source_node_id.clone() };
        let tgt = SchemaEntityRef::NodeType { id: edge.target_node_id.clone() };
        saw_source |= graph.dependents_of(&src).iter().any(|e| e.kind == DependencyKind::EdgeSource);
        saw_target |= graph.dependents_of(&tgt).iter().any(|e| e.kind == DependencyKind::EdgeTarget);
    }
    assert!(saw_source, "at least one EdgeSource dependency expected");
    assert!(saw_target, "at least one EdgeTarget dependency expected");
}

#[test]
fn build_is_deterministic_across_invocations() {
    let ontology = sample_user_ontology();
    let g1 = SchemaDependencyGraph::build(&ontology);
    let g2 = SchemaDependencyGraph::build(&ontology);
    assert_eq!(g1, g2);
}

#[test]
fn dependents_of_unknown_returns_empty_slice() {
    let ontology = sample_user_ontology();
    let graph = SchemaDependencyGraph::build(&ontology);
    let unknown = SchemaEntityRef::NodeType { id: "ghost".into() };
    assert!(graph.dependents_of(&unknown).is_empty());
}

#[test]
fn edge_count_matches_every_recorded_reference() {
    // user: 2 PropertyOf + 1 binding + 1 attached rule; order: 1 PropertyOf;
    // edge: source + target + 1 PropertyOf; rule: shape target + InValueSet + activation;
    // object mapping: target + 1 property mapping; link mapping: 1.
    let graph = SchemaDependencyGraph::build(&sample_user_ontology());
    assert_eq!(graph.edge_count(), 14);
}

#[test]
fn buckets_are_sorted_by_target_and_labels_are_exact() {
    let graph = SchemaDependencyGraph::build(&sample_user_ontology());
    // NodeType variants come first, ordered by id: n-order before n-user.
    assert_eq!(graph.buckets[0].target, SchemaEntityRef::NodeType { id: "n-order".into() });
    assert_eq!(graph.buckets[1].target, SchemaEntityRef::NodeType { id: "n-user".into() });
    let vs = graph.dependents_of(&SchemaEntityRef::ValueSet { id: "vs-domains".into() });
    assert_eq!(vs.len(), 2);
    // Binding references sort before rule-vocabulary references (kind order).
    assert_eq!(vs[0].kind, DependencyKind::PropertyBindingRef);
    assert_eq!(vs[0].label, "property `email` value-set binding");
    assert_eq!(vs[1].kind, DependencyKind::RuleVocabulary);
    assert_eq!(vs[1].label, "rule `r-user` InValueSet");
    let edge = graph.dependents_of(&SchemaEntityRef::EdgeType { id: "e-placed".into() });
    assert!(edge.iter().any(|e| e.label == "foreign-key link"));
    let action = graph.dependents_of(&SchemaEntityRef::Action { id: "a-signup".into() });
    assert_eq!(action.len(), 1);
    assert_eq!(action[0].label, "rule `r-user` activates on action");
}

#[test]
fn bucket_edges_are_ordered_by_kind_before_dependent() {
    let n = NodeTypeDef { id: "n".to_string(), label: "N".to_string(), ..Default::default() };
    let m = NodeTypeDef { id: "m".to_string(), label: "M".to_string(), ..Default::default() };
    let edge = |id: &str, label: &str, s: &str, t: &str| EdgeTypeDef {
        id: id.to_string(),
        label: label.to_string(),
        source_node_id: s.to_string(),
        target_node_id: t.to_string(),
        cardinality: Cardinality::ManyToOne,
        ..Default::default()
    };
    let ontology = OntologyIR {
        id: "o".to_string(),
        name: "O".to_string(),
        version: 1,
        node_types: vec![n, m],
        // `n` is the source of edge type "z" and the target of edge type "a".
        edge_types: vec![edge("a", "A", "m", "n"), edge("z", "Z", "n", "m")],
        ..Default::default()
    };
    let graph = SchemaDependencyGraph::build(&ontology);
    let deps = graph.dependents_of(&SchemaEntityRef::NodeType { id: "n".into() });
    assert_eq!(deps.len(), 2);
    assert_eq!(deps[0].kind, DependencyKind::EdgeSource);
    assert_eq!(deps[0].dependent, SchemaEntityRef::EdgeType { id: "z".into() });
    assert_eq!(deps[1].kind, DependencyKind::EdgeTarget);
    assert_eq!(deps[1].dependent, SchemaEntityRef::EdgeType { id: "a".into() });
}

#[test]
fn code_system_lists_the_value_sets_and_concept_maps_that_use_it() {
    let mut ir = OntologyIR { id: "o".to_string(), name: "O".to_string(), ..Default::default() };
    ir.registries.value_sets.push(ValueSetDef {
        id: "vs-status".to_string(),
        name: "Status".to_string(),
        composition: vec![
            ValueSetIncludeRule { system_id: "cs-a".to_string(), selector: ValueSetSelector::All },
            ValueSetIncludeRule { system_id: "cs-b".to_string(), selector: ValueSetSelector::All },
            ValueSetIncludeRule { system_id: "cs-a".to_string(), selector: ValueSetSelector::All },
        ],
    });
    ir.registries.concept_maps.push(ConceptMapDef {
        id: "cm-1".to_string(),
        name: "Map".to_string(),
        display_name: String::new(),
        description: String::new(),
        version: "1".to_string(),
        source_system_id: "cs-a".to_string(),
        target_system_id: "cs-b".to_string(),
        mappings: vec![],
    });
    let graph = SchemaDependencyGraph::build(&ir);
    let a = graph.dependents_of(&SchemaEntityRef::CodeSystem { id: "cs-a".to_string() });
    let labels: Vec<(DependencyKind, &str)> = a.iter().map(|e| (e.kind, e.label.as_str())).collect();
    assert_eq!(
        labels,
        vec![
            (DependencyKind::ValueSetComposition, "value set `Status` composition rule 0"),
            (DependencyKind::ValueSetComposition, "value set `Status` composition rule 2"),
            (DependencyKind::ConceptMapEndpoint, "concept map `Map` source"),
        ]
    );
    let b = graph.dependents_of(&SchemaEntityRef::CodeSystem { id: "cs-b".to_string() });
    assert_eq!(b.len(), 2);
    assert!(b.iter().any(|e| e.dependent == SchemaEntityRef::ConceptMap { id: "cm-1".to_string() }
        && e.label == "concept map `Map` target"));
}

#[test]
fn enrichments_and_actions_record_what_they_use() {
    let mut ir = OntologyIR { id: "o".to_string(), name: "O".to_string(), ..Default::default() };
    ir.enrichments.push(ox_ontology::enrichment::EnrichmentDef {
        id: "enr-1".to_string(),
        name: "Geo".to_string(),
        description: Bilingual::default(),
        target_node_type_id: "n-user".to_string(),
        join_key_property_id: "p-zip".to_string(),
        target_property_id: "p-city".to_string(),
        external_source: ox_ontology::enrichment::ExternalSourceRef::SiblingOntology {
            workspace_slug: "geo".to_string(),
            node_type_id: "n-zip".to_string(),
        },
        refresh: ox_ontology::enrichment::RefreshPolicy::OnAccess,
    });
    ir.actions.push(ox_ontology::action::ActionDef {
        id: "act-1".to_string(),
        name: "Charge".to_string(),
        description: Bilingual::default(),
        target: ox_ontology::action::ActionTarget::NodeType { node_type_id: "n-user".to_string() },
        kind: ox_ontology::action::ActionKind::Custom,
        preconditions: vec!["r-pre".to_string()],
        postconditions: vec!["r-post".to_string()],
        idempotency: ox_ontology::action::IdempotencyPolicy::Unkeyed,
        approval: ox_ontology::action::ApprovalPolicy::Automatic,
    });
    let graph = SchemaDependencyGraph::build(&ir);
    let user = graph.dependents_of(&SchemaEntityRef::NodeType { id: "n-user".to_string() });
    assert_eq!(user.len(), 1);
    assert_eq!(user[0].kind, DependencyKind::EnrichmentTarget);
    assert_eq!(user[0].label, "enrichment `Geo`");
    for rule in ["r-pre", "r-post"] {
        let edges = graph.dependents_of(&SchemaEntityRef::Rule { id: rule.to_string() });
        assert_eq!(edges.len(), 1);
        assert_eq!(edges[0].dependent, SchemaEntityRef::Action { id: "act-1".to_string() });
        assert_eq!(edges[0].label, "action `Charge` references rule");
    }
}
