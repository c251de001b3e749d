use ox_ontology::community_graph::{ontology_topology, EntityKind};
use ox_ontology::concept::{ConceptDef, ConceptGovernance};
use ox_ontology::glossary::{GlossaryTermDef, TermGovernance, TermLifecycle, TermPos};
use ox_ontology::ir::{EdgeTypeDef, NodeTypeDef, OntologyIR};
use ox_ontology::rule::Bilingual;

fn concept(id: &str, term: &str) -> ConceptDef {
    ConceptDef {
        id: id.to_string(),
        canonical_term_id: term.to_string(),
        alias_term_ids: vec![],
        broader: None,
        description: Bilingual::default(),
        examples: vec![],
        category: None,
        realisation: None,
        lifecycle: TermLifecycle::default(),
        replaced_by: None,
        valid_from: None,
        valid_to: None,
        governance: ConceptGovernance::default(),
    }
}

fn minimal_node(id: &str, label: &str) -> NodeTypeDef {
    NodeTypeDef { id: id.to_string(), label: label.to_string(), ..Default::default() }
}

fn edge(id: &str, label: &str, source: &str, target: &str) -> EdgeTypeDef {
    EdgeTypeDef {
        id: id.to_string(),
        label: label.to_string(),
        source_node_id: source.to_string(),
        target_node_id: target.to_string(),
        ..Default::default()
    }
}

fn ontology(nodes: Vec<NodeTypeDef>, edges: Vec<EdgeTypeDef>) -> OntologyIR {
    OntologyIR {
        id: "ont".to_string(),
        name: "X".to_string(),
        version: 1,
        node_types: nodes,
        edge_types: edges,
        ..Default::default()
    }
}

#[test]
fn empty_ir_yields_empty_topology() {
    let t = ontology_topology(&ontology(vec![], vec![]));
    assert!(t.nodes.is_empty());
    assert!(t.links.is_empty());
}

#[test]
fn edge_type_is_linked_to_both_endpoint_types() {
    let ir = ontology(
        vec![minimal_node("nt-a", "A"), minimal_node("nt-b", "B")],
        vec![edge("et-1", "Connects", "nt-a", "nt-b")],
    );
    let t = ontology_topology(&ir);
    assert_eq!(t.nodes.len(), 3);
    let et_idx = t.nodes.iter().position(|n| n.kind == EntityKind::EdgeType).unwrap();
    let incident = t.links.iter().filter(|(a, b)| *a == et_idx || *b == et_idx).count();
    assert_eq!(incident, 2);
    assert_eq!(t.links, vec![(2, 0), (2, 1)]);
}

#[test]
fn self_referential_edge_links_twice_without_a_loop() {
    let ir = ontology(
        vec![minimal_node("nt-emp", "Employee")],
        vec![edge("et-manages", "Manages", "nt-emp", "nt-emp")],
    );
    let t = ontology_topology(&ir);
    let et_idx = t.nodes.iter().position(|n| n.kind == EntityKind::EdgeType).unwrap();
    assert_eq!(t.links.len(), 2);
    assert!(t.links.iter().all(|(a, b)| a != b && *a == et_idx));
}

#[test]
fn nodes_follow_offer_order_and_keep_first_of_duplicates() {
    let mut ir = ontology(
        vec![minimal_node("n1", "One"), minimal_node("n1", "Dup"), minimal_node("n2", "Two")],
        vec![edge("e1", "Rel", "n2", "missing")],
    );
    ir.registries.concepts = vec![concept("c-1", "gt-1"), concept("n1", "gt-n1")];
    let t = ontology_topology(&ir);
    let shown: Vec<(EntityKind, &str, &str)> =
        t.nodes.iter().map(|n| (n.kind, n.logical_id.as_str(), n.display_name.as_str())).collect();
    assert_eq!(
        shown,
        vec![
            (EntityKind::NodeType, "n1", "One"),
            (EntityKind::NodeType, "n2", "Two"),
            (EntityKind::EdgeType, "e1", "Rel"),
            (EntityKind::Concept, "c-1", "gt-1"),
            (EntityKind::Concept, "n1", "gt-n1"),
        ]
    );
    // The missing target contributes no link.
    assert_eq!(t.links, vec![(2, 1)]);
}

fn term(id: &str, label: &str, concept_id: Option<&str>) -> GlossaryTermDef {
    GlossaryTermDef {
        id: id.to_string(),
        term: Bilingual { en: label.to_string(), ko: String::new() },
        display_name: Bilingual::default(),
        description: Bilingual::default(),
        examples: vec![],
        category: None,
        aliases: vec![],
        related_terms: vec![],
        governance: TermGovernance::default(),
        valid_from: None,
        valid_to: None,
        lifecycle: TermLifecycle::default(),
        concept_id: concept_id.map(|c| c.to_string()),
        term_pos: TermPos::default(),
    }
}

#[test]
fn glossary_terms_are_nodes_linked_to_the_concepts_they_name() {
    let mut ir = ontology(vec![minimal_node("n1", "One")], vec![]);
    ir.registries.concepts = vec![concept("c-1", "gt-1")];
    ir.registries.glossary_terms = vec![
        term("gt-1", "Customer", Some("c-1")),
        term("gt-2", "Client", Some("c-missing")),
        term("gt-3", "Buyer", None),
    ];
    let t = ontology_topology(&ir);
    let shown: Vec<(EntityKind, &str, &str)> =
        t.nodes.iter().map(|n| (n.kind, n.logical_id.as_str(), n.display_name.as_str())).collect();
    assert_eq!(
        shown,
        vec![
            (EntityKind::NodeType, "n1", "One"),
            (EntityKind::Concept, "c-1", "gt-1"),
            (EntityKind::GlossaryTerm, "gt-1", "Customer"),
            (EntityKind::GlossaryTerm, "gt-2", "Client"),
            (EntityKind::GlossaryTerm, "gt-3", "Buyer"),
        ]
    );
    assert_eq!(t.term_links, vec![(2, 1)]);
    assert!(t.links.is_empty());
}

#[test]
fn node_and_edge_types_are_linked_to_the_concepts_they_realise() {
    let mut person = minimal_node("n1", "Person");
    person.concept_id = Some("c-party".to_string());
    let mut knows = edge("e1", "KNOWS", "n1", "n1");
    knows.concept_id = Some("c-relation".to_string());
    let mut unlinked = minimal_node("n2", "Thing");
    unlinked.concept_id = Some("c-missing".to_string());
    let mut ir = ontology(vec![person, unlinked], vec![knows]);
    ir.registries.concepts = vec![concept("c-party", "gt-party"), concept("c-relation", "gt-rel")];
    let t = ontology_topology(&ir);
    // n1 = 0, n2 = 1, e1 = 2, c-party = 3, c-relation = 4
    assert_eq!(t.concept_links, vec![(0, 3), (2, 4)]);
    assert!(t.term_links.is_empty());
}
