use ox_ontology::command::{OntologyCommand, PropertyOwner, PropertyPatch};
use ox_ontology::glossary::{GlossaryTermDef, TermGovernance, TermLifecycle, TermPos};
use ox_ontology::rule::Bilingual;
use ox_ontology::ir::{
    Cardinality, ConstraintDef, EdgeTypeDef, IndexDef, NodeConstraint, NodeTypeDef,
    ObjectMappingDef, OntologyIR, PropertyDef, PropertyType,
};

fn prop(id: &str, name: &str) -> PropertyDef {
    PropertyDef { id: id.to_string(), name: name.to_string(), ..Default::default() }
}

fn test_ontology() -> OntologyIR {
    let person = NodeTypeDef {
        id: "n1".to_string(),
        label: "Person".to_string(),
        description: "A person".to_string(),
        properties: vec![prop("p1", "name"), prop("p2", "age")],
        constraints: vec![ConstraintDef {
            id: "c1".to_string(),
            constraint: NodeConstraint::Unique { property_ids: vec!["p1".to_string()] },
        }],
        ..Default::default()
    };
    let company = NodeTypeDef {
        id: "n2".to_string(),
        label: "Company".to_string(),
        properties: vec![prop("p3", "name")],
        ..Default::default()
    };
    let works_at = EdgeTypeDef {
        id: "e1".to_string(),
        label: "WORKS_AT".to_string(),
        source_node_id: "n1".to_string(),
        target_node_id: "n2".to_string(),
        properties: vec![prop("ep1", "since")],
        cardinality: Cardinality::ManyToOne,
        ..Default::default()
    };
    OntologyIR {
        id: "ont".to_string(),
        name: "Test".to_string(),
        version: 1,
        node_types: vec![person, company],
        edge_types: vec![works_at],
        indexes: vec![IndexDef::Single {
            id: "idx1".to_string(),
            node_id: "n1".to_string(),
            property_id: "p1".to_string(),
        }],
        ..Default::default()
    }
}

fn glossary_term(id: &str, label: &str) -> GlossaryTermDef {
    GlossaryTermDef {
        id: id.to_string(),
        term: Bilingual { en: label.to_string(), ko: String::new() },
        display_name: Bilingual::default(),
        description: Bilingual::default(),
        examples: vec![],
        category: None,
        aliases: vec![],
        related_terms: vec![],
        governance: TermGovernance::default(),
        valid_from: None,
        valid_to: None,
        lifecycle: TermLifecycle::default(),
        concept_id: None,
        term_pos: TermPos::default(),
    }
}

fn node<'a>(o: &'a OntologyIR, id: &str) -> &'a NodeTypeDef {
    o.node_types.iter().find(|n| n.id == id).unwrap()
}

fn mapping(id: &str, node: &str, relation: &str) -> ObjectMappingDef {
    ObjectMappingDef {
        id: id.to_string(),
        source_id: "pg-main".to_string(),
        relation: relation.to_string(),
        node_type_id: node.to_string(),
        precedence: 0,
        property_mappings: vec![],
    }
}

#[test]
fn add_and_delete_node_roundtrip() {
    let ontology = test_ontology();
    let cmd = OntologyCommand::AddNode {
        id: "n3".into(),
        label: "Product".into(),
        description: "A product".into(),
    };
    let result = cmd.execute(&ontology).unwrap();
    assert_eq!(result.new_ontology.node_types.len(), 3);
    assert!(result.new_ontology.node_types.iter().any(|n| n.id == "n3" && n.label == "Product"));
    let restored = result.inverse.execute(&result.new_ontology).unwrap();
    assert_eq!(ontology, restored.new_ontology);
}

#[test]
fn rename_node_preserves_edges() {
    let ontology = test_ontology();
    let cmd = OntologyCommand::RenameNode { node_id: "n1".into(), new_label: "Individual".into() };
    let result = cmd.execute(&ontology).unwrap();
    assert_eq!(node(&result.new_ontology, "n1").label, "Individual");
    let edge = &result.new_ontology.edge_types[0];
    assert_eq!(edge.source_node_id, "n1");
    assert_eq!(edge.target_node_id, "n2");
    let restored = result.inverse.execute(&result.new_ontology).unwrap();
    assert_eq!(node(&restored.new_ontology, "n1").label, "Person");
    assert_eq!(ontology, restored.new_ontology);
}

#[test]
fn rename_node_rejects_taken_label() {
    let ontology = test_ontology();
    let cmd = OntologyCommand::RenameNode { node_id: "n1".into(), new_label: "Company".into() };
    assert!(cmd.execute(&ontology).is_err());
}

#[test]
fn delete_node_cascades_edges() {
    let ontology = test_ontology();
    let cmd = OntologyCommand::DeleteNode { node_id: "n1".into() };
    let result = cmd.execute(&ontology).unwrap();
    assert_eq!(result.new_ontology.node_types.len(), 1);
    assert!(result.new_ontology.edge_types.is_empty());
    assert!(result.new_ontology.indexes.is_empty());
    let restored = result.inverse.execute(&result.new_ontology).unwrap();
    assert_eq!(restored.new_ontology.node_types.len(), 2);
    assert_eq!(restored.new_ontology.edge_types.len(), 1);
    assert_eq!(restored.new_ontology.indexes.len(), 1);
    let person = node(&restored.new_ontology, "n1");
    assert_eq!(person.label, "Person");
    assert_eq!(person.properties.len(), 2);
    assert_eq!(person.constraints.len(), 1);
    assert_eq!(restored.new_ontology.edge_types[0].properties.len(), 1);
}

#[test]
fn add_delete_property() {
    let ontology = test_ontology();
    let new_prop = PropertyDef {
        id: "p4".into(),
        name: "industry".into(),
        property_type: PropertyType::String,
        nullable: true,
        description: "Industry sector".into(),
        ..Default::default()
    };
    let add_cmd = OntologyCommand::AddProperty {
        owner: PropertyOwner::Node { type_id: "n2".into() },
        property: Box::new(new_prop),
    };
    let add_result = add_cmd.execute(&ontology).unwrap();
    assert_eq!(node(&add_result.new_ontology, "n2").properties.len(), 2);
    let del_result = add_result.inverse.execute(&add_result.new_ontology).unwrap();
    assert_eq!(ontology, del_result.new_ontology);

    let edge_prop = PropertyDef { id: "ep2".into(), name: "role".into(), ..Default::default() };
    let add_edge_cmd = OntologyCommand::AddProperty {
        owner: PropertyOwner::Edge { type_id: "e1".into() },
        property: Box::new(edge_prop),
    };
    let edge_result = add_edge_cmd.execute(&ontology).unwrap();
    assert_eq!(edge_result.new_ontology.edge_types[0].properties.len(), 2);
}

#[test]
fn batch_execute_and_inverse() {
    let ontology = test_ontology();
    let batch = OntologyCommand::Batch {
        description: "add node and edge".to_string(),
        commands: vec![
            OntologyCommand::AddNode { id: "n3".into(), label: "Project".into(), description: String::new() },
            OntologyCommand::AddEdge {
                id: "e2".into(),
                label: "MANAGES".into(),
                source_node_id: "n1".into(),
                target_node_id: "n3".into(),
                cardinality: Cardinality::OneToMany,
            },
            OntologyCommand::RenameNode { node_id: "n2".into(), new_label: "Organization".into() },
        ],
    };
    let result = batch.execute(&ontology).unwrap();
    assert_eq!(result.new_ontology.node_types.len(), 3);
    assert_eq!(result.new_ontology.edge_types.len(), 2);
    assert_eq!(node(&result.new_ontology, "n2").label, "Organization");
    let restored = result.inverse.execute(&result.new_ontology).unwrap();
    assert_eq!(ontology, restored.new_ontology);
}

#[test]
fn batch_stops_at_first_rejection() {
    let ontology = test_ontology();
    let batch = OntologyCommand::Batch {
        description: "bad".to_string(),
        commands: vec![
            OntologyCommand::AddNode { id: "n3".into(), label: "Project".into(), description: String::new() },
            OntologyCommand::DeleteNode { node_id: "missing".into() },
        ],
    };
    assert!(batch.execute(&ontology).is_err());
}

#[test]
fn update_property_roundtrip() {
    let ontology = test_ontology();
    let patch = PropertyPatch {
        name: Some("full_name".to_string()),
        property_type: Some(PropertyType::String),
        nullable: Some(true),
        default_value: None,
        description: Some("Full name of person".to_string()),
    };
    let cmd = OntologyCommand::UpdateProperty {
        owner: PropertyOwner::Node { type_id: "n1".into() },
        property_id: "p1".into(),
        patch,
    };
    let result = cmd.execute(&ontology).unwrap();
    let updated = node(&result.new_ontology, "n1").properties.iter().find(|p| p.id == "p1").unwrap();
    assert_eq!(updated.name, "full_name");
    assert!(updated.nullable);
    assert_eq!(updated.description, "Full name of person");
    let restored = result.inverse.execute(&result.new_ontology).unwrap();
    assert_eq!(ontology, restored.new_ontology);
}

#[test]
fn add_remove_constraint_roundtrip() {
    let ontology = test_ontology();
    let constraint = ConstraintDef {
        id: "c2".into(),
        constraint: NodeConstraint::Exists { property_id: "p2".into() },
    };
    let cmd = OntologyCommand::AddConstraint { node_id: "n1".into(), constraint };
    let result = cmd.execute(&ontology).unwrap();
    assert_eq!(node(&result.new_ontology, "n1").constraints.len(), 2);
    let restored = result.inverse.execute(&result.new_ontology).unwrap();
    assert_eq!(ontology, restored.new_ontology);
}

#[test]
fn add_remove_index_roundtrip() {
    let ontology = test_ontology();
    let index = IndexDef::Composite {
        id: "idx2".to_string(),
        node_id: "n1".into(),
        property_ids: vec!["p1".into(), "p2".into()],
    };
    let cmd = OntologyCommand::AddIndex { index };
    let result = cmd.execute(&ontology).unwrap();
    assert_eq!(result.new_ontology.indexes.len(), 2);
    let restored = result.inverse.execute(&result.new_ontology).unwrap();
    assert_eq!(ontology, restored.new_ontology);
}

#[test]
fn error_on_invalid_references() {
    let ontology = test_ontology();
    assert!(OntologyCommand::DeleteNode { node_id: "nonexistent".into() }.execute(&ontology).is_err());
    let cmd = OntologyCommand::AddEdge {
        id: "e99".into(),
        label: "BAD".into(),
        source_node_id: "nonexistent".into(),
        target_node_id: "n2".into(),
        cardinality: Cardinality::OneToOne,
    };
    assert!(cmd.execute(&ontology).is_err());
    let cmd = OntologyCommand::DeleteProperty {
        owner: PropertyOwner::Node { type_id: "nonexistent".into() },
        property_id: "p1".into(),
    };
    assert!(cmd.execute(&ontology).is_err());
    let cmd = OntologyCommand::AddNode { id: "n1".into(), label: "Duplicate".into(), description: String::new() };
    assert!(cmd.execute(&ontology).is_err());
}

#[test]
fn set_node_glossary_anchors_replaces_list_atomically() {
    let mut ontology = test_ontology();
    ontology.registries.glossary_terms.push(glossary_term("gt-customer", "Customer"));
    ontology.registries.glossary_terms.push(glossary_term("gt-loyalty", "Loyalty"));
    let cmd = OntologyCommand::SetNodeGlossaryAnchors {
        node_id: "n1".into(),
        anchors: vec!["gt-customer".into(), "gt-loyalty".into()],
    };
    let result = cmd.execute(&ontology).unwrap();
    let n = node(&result.new_ontology, "n1");
    assert_eq!(n.glossary_anchors, vec!["gt-customer".to_string(), "gt-loyalty".to_string()]);
    let restored = result.inverse.execute(&result.new_ontology).unwrap();
    assert!(node(&restored.new_ontology, "n1").glossary_anchors.is_empty());
}

#[test]
fn set_edge_glossary_anchors_replaces_list_atomically() {
    let mut ontology = test_ontology();
    ontology.registries.glossary_terms.push(glossary_term("gt-employment", "Employment"));
    let cmd = OntologyCommand::SetEdgeGlossaryAnchors {
        edge_id: "e1".into(),
        anchors: vec!["gt-employment".into()],
    };
    let result = cmd.execute(&ontology).unwrap();
    assert_eq!(result.new_ontology.edge_types[0].glossary_anchors.len(), 1);
    let restored = result.inverse.execute(&result.new_ontology).unwrap();
    assert!(restored.new_ontology.edge_types[0].glossary_anchors.is_empty());
}

#[test]
fn object_mapping_create_update_delete_roundtrip() {
    let ontology = test_ontology();
    let m = mapping("om-1", "n2", "public.companies");
    let create = OntologyCommand::CreateObjectMapping { mapping: Box::new(m.clone()) };
    let create_result = create.execute(&ontology).unwrap();
    assert_eq!(create_result.new_ontology.object_mappings.len(), 1);
    assert_eq!(create_result.new_ontology.object_mappings[0].relation, "public.companies");

    let mut updated = m.clone();
    updated.relation = "warehouse.companies".into();
    let update = OntologyCommand::UpdateObjectMapping { id: "om-1".into(), mapping: Box::new(updated) };
    let update_result = update.execute(&create_result.new_ontology).unwrap();
    assert_eq!(update_result.new_ontology.object_mappings[0].relation, "warehouse.companies");
    let restored = update_result.inverse.execute(&update_result.new_ontology).unwrap();
    assert_eq!(restored.new_ontology.object_mappings[0].relation, "public.companies");

    let delete = OntologyCommand::DeleteObjectMapping { id: "om-1".into() };
    let delete_result = delete.execute(&create_result.new_ontology).unwrap();
    assert!(delete_result.new_ontology.object_mappings.is_empty());
    let resurrected = delete_result.inverse.execute(&delete_result.new_ontology).unwrap();
    assert_eq!(resurrected.new_ontology.object_mappings.len(), 1);
}

#[test]
fn create_object_mapping_rejects_duplicate_id() {
    let ontology = test_ontology();
    let m = mapping("om-1", "n2", "public.companies");
    let first = OntologyCommand::CreateObjectMapping { mapping: Box::new(m.clone()) };
    let after_first = first.execute(&ontology).unwrap().new_ontology;
    let duplicate = OntologyCommand::CreateObjectMapping { mapping: Box::new(m) };
    assert!(duplicate.execute(&after_first).is_err());
}

#[test]
fn object_mapping_on_unknown_node_is_rejected_by_validation() {
    let ontology = test_ontology();
    let cmd = OntologyCommand::CreateObjectMapping { mapping: Box::new(mapping("om-x", "ghost", "t")) };
    let err = cmd.execute(&ontology).unwrap_err();
    assert!(err.starts_with("command produced invalid ontology: "), "{err}");
}

#[test]
fn delete_property_cascades_constraints_and_indexes() {
    let ontology = test_ontology();
    let cmd = OntologyCommand::DeleteProperty {
        owner: PropertyOwner::Node { type_id: "n1".into() },
        property_id: "p1".into(),
    };
    let result = cmd.execute(&ontology).unwrap();
    let n = node(&result.new_ontology, "n1");
    assert_eq!(n.properties.len(), 1);
    assert!(n.constraints.is_empty());
    assert!(result.new_ontology.indexes.is_empty());
    let restored = result.inverse.execute(&result.new_ontology).unwrap();
    let n = node(&restored.new_ontology, "n1");
    assert_eq!(n.properties.len(), 2);
    assert_eq!(n.constraints.len(), 1);
    assert_eq!(restored.new_ontology.indexes.len(), 1);
}

#[test]
fn affected_element_ids_follow_the_command() {
    let batch = OntologyCommand::Batch {
        description: String::new(),
        commands: vec![
            OntologyCommand::DeleteNode { node_id: "n1".into() },
            OntologyCommand::AddIndex {
                index: IndexDef::Single { id: "i".into(), node_id: "n1".into(), property_id: "p".into() },
            },
            OntologyCommand::RenameEdge { edge_id: "e1".into(), new_label: "X".into() },
        ],
    };
    assert_eq!(batch.affected_element_ids(), vec!["n1".to_string(), "e1".to_string()]);
    let cmd = OntologyCommand::UpdateProperty {
        owner: PropertyOwner::Edge { type_id: "e7".into() },
        property_id: "p".into(),
        patch: PropertyPatch::default(),
    };
    assert_eq!(cmd.affected_element_ids(), vec!["e7".to_string()]);
}

#[test]
fn validate_reports_each_broken_rule() {
    let mut o = test_ontology();
    assert!(o.validate().is_empty());
    o.edge_types[0].target_node_id = "ghost".into();
    o.node_types[1].label = "Person".into();
    let errors = o.validate();
    assert_eq!(errors.len(), 2);
}

#[test]
fn property_bound_to_missing_value_set_is_rejected_by_validation() {
    let ontology = test_ontology();
    let mut p = prop("p9", "status");
    p.bindings.push(ox_ontology::binding::PropertyBinding::value_set("vs-missing".to_string()));
    let cmd = OntologyCommand::AddProperty {
        owner: PropertyOwner::Node { type_id: "n1".into() },
        property: Box::new(p),
    };
    let err = cmd.execute(&ontology).unwrap_err();
    assert!(err.contains("references unknown value_set `vs-missing`"));
    assert!(ontology.validate().is_empty());
}

#[test]
fn undoing_an_index_removal_puts_the_index_back_at_the_end() {
    let mut ontology = test_ontology();
    ontology.indexes.push(IndexDef::Single {
        id: "idx2".to_string(),
        node_id: "n2".to_string(),
        property_id: "p3".to_string(),
    });
    let remove = OntologyCommand::RemoveIndex { index_id: "idx1".to_string() };
    let removed = remove.execute(&ontology).unwrap();
    assert_eq!(removed.new_ontology.indexes.len(), 1);
    let back = removed.inverse.execute(&removed.new_ontology).unwrap().new_ontology;
    // Same indexes, the restored one last; everything else as before.
    assert_eq!(back.indexes, vec![ontology.indexes[1].clone(), ontology.indexes[0].clone()]);
    assert_eq!(back.node_types, ontology.node_types);
    assert_eq!(back.edge_types, ontology.edge_types);
}

#[test]
fn undoing_a_property_addition_restores_the_ontology() {
    let ontology = test_ontology();
    let add = OntologyCommand::AddProperty {
        owner: PropertyOwner::Edge { type_id: "e1".to_string() },
        property: Box::new(prop("ep2", "until")),
    };
    let added = add.execute(&ontology).unwrap();
    let back = added.inverse.execute(&added.new_ontology).unwrap();
    assert_eq!(back.new_ontology, ontology);
}

#[test]
fn undoing_a_property_deletion_brings_back_its_constraint_and_index() {
    let ontology = test_ontology();
    let delete = OntologyCommand::DeleteProperty {
        owner: PropertyOwner::Node { type_id: "n1".to_string() },
        property_id: "p1".to_string(),
    };
    let deleted = delete.execute(&ontology).unwrap();
    let back = deleted.inverse.execute(&deleted.new_ontology).unwrap().new_ontology;
    let person = node(&back, "n1");
    let ids: Vec<&str> = person.properties.iter().map(|p| p.id.as_str()).collect();
    assert_eq!(ids, vec!["p2", "p1"]);
    assert_eq!(person.constraints, node(&ontology, "n1").constraints);
    assert_eq!(back.indexes, ontology.indexes);
    assert_eq!(back.edge_types, ontology.edge_types);
}

#[test]
fn undoing_a_node_deletion_brings_back_its_edges_and_indexes() {
    let ontology = test_ontology();
    let deleted = OntologyCommand::DeleteNode { node_id: "n1".to_string() }.execute(&ontology).unwrap();
    let back = deleted.inverse.execute(&deleted.new_ontology).unwrap().new_ontology;
    let ids: Vec<&str> = back.node_types.iter().map(|n| n.id.as_str()).collect();
    assert_eq!(ids, vec!["n2", "n1"]);
    assert_eq!(node(&back, "n1"), node(&ontology, "n1"));
    assert_eq!(back.edge_types, ontology.edge_types);
    assert_eq!(back.indexes, ontology.indexes);
}

#[test]
fn undoing_an_edge_deletion_restores_the_edge() {
    let ontology = test_ontology();
    let deleted = OntologyCommand::DeleteEdge { edge_id: "e1".to_string() }.execute(&ontology).unwrap();
    assert!(deleted.new_ontology.edge_types.is_empty());
    let back = deleted.inverse.execute(&deleted.new_ontology).unwrap().new_ontology;
    assert_eq!(back, ontology);
}

#[test]
fn a_refused_batch_names_the_refused_command() {
    let ontology = test_ontology();
    let batch = OntologyCommand::Batch {
        description: "bad".to_string(),
        commands: vec![
            OntologyCommand::AddNode { id: "n3".into(), label: "Project".into(), description: String::new() },
            OntologyCommand::DeleteNode { node_id: "missing".into() },
        ],
    };
    let err = batch.execute(&ontology).unwrap_err();
    assert_eq!(err, "batch command #1 failed: node 'missing' not found");
}

#[test]
fn undoing_a_node_property_addition_restores_the_ontology() {
    let ontology = test_ontology();
    let add = OntologyCommand::AddProperty {
        owner: PropertyOwner::Node { type_id: "n2".to_string() },
        property: Box::new(prop("p4", "founded")),
    };
    let added = add.execute(&ontology).unwrap();
    assert_eq!(node(&added.new_ontology, "n2").properties.len(), 2);
    let back = added.inverse.execute(&added.new_ontology).unwrap();
    assert_eq!(back.new_ontology, ontology);
}

#[test]
fn validate_names_each_broken_rule_in_order() {
    let mut o = test_ontology();
    o.edge_types[0].target_node_id = "ghost".into();
    o.node_types[1].label = "Person".into();
    assert_eq!(
        o.validate(),
        vec![
            "duplicate node type label".to_string(),
            "edge type references an unknown node type".to_string(),
        ]
    );
}

#[test]
fn undoing_a_node_addition_drops_an_index_that_already_named_its_id() {
    let mut ontology = test_ontology();
    ontology.indexes.push(IndexDef::Single {
        id: "idx9".to_string(),
        node_id: "n3".to_string(),
        property_id: "p1".to_string(),
    });
    let cmd = OntologyCommand::AddNode { id: "n3".into(), label: "Product".into(), description: String::new() };
    let added = cmd.execute(&ontology).unwrap();
    let back = added.inverse.execute(&added.new_ontology).unwrap();
    assert_eq!(back.new_ontology.indexes.len(), 1);
    assert_ne!(back.new_ontology, ontology);
}

#[test]
fn commands_on_missing_elements_name_them() {
    let ontology = test_ontology();
    let rename = OntologyCommand::RenameNode { node_id: "n9".into(), new_label: "X".into() };
    assert_eq!(rename.execute(&ontology).unwrap_err(), "node 'n9' not found");
    let cardinality = OntologyCommand::UpdateEdgeCardinality {
        edge_id: "e9".into(),
        cardinality: Cardinality::OneToOne,
    };
    assert_eq!(cardinality.execute(&ontology).unwrap_err(), "edge 'e9' not found");
    let add = OntologyCommand::AddProperty {
        owner: PropertyOwner::Edge { type_id: "e9".to_string() },
        property: Box::new(prop("ep9", "x")),
    };
    assert_eq!(add.execute(&ontology).unwrap_err(), "edge 'e9' not found");
}

#[test]
fn set_node_glossary_anchors_rejects_unknown_id() {
    let ontology = test_ontology();
    let cmd = OntologyCommand::SetNodeGlossaryAnchors {
        node_id: "n1".into(),
        anchors: vec!["gt-orphan".into()],
    };
    assert!(cmd.execute(&ontology).is_err());
}

#[test]
fn validate_names_an_unknown_glossary_anchor() {
    let mut o = test_ontology();
    o.edge_types[0].glossary_anchors.push("gt-orphan".to_string());
    assert_eq!(o.validate(), vec!["glossary anchor references an unknown glossary term".to_string()]);
    o.registries.glossary_terms.push(glossary_term("gt-orphan", "Orphan"));
    assert!(o.validate().is_empty());
}

#[test]
fn a_refused_inner_batch_is_named_inside_the_outer_message() {
    let ontology = test_ontology();
    let inner = OntologyCommand::Batch {
        description: "inner".to_string(),
        commands: vec![OntologyCommand::RenameNode { node_id: "n9".into(), new_label: "X".into() }],
    };
    let outer = OntologyCommand::Batch {
        description: "outer".to_string(),
        commands: vec![
            OntologyCommand::AddNode { id: "n3".into(), label: "Project".into(), description: String::new() },
            inner,
        ],
    };
    assert_eq!(
        outer.execute(&ontology).unwrap_err(),
        "batch command #1 failed: batch command #0 failed: node 'n9' not found"
    );
}
