use ox_ontology::exchange::{to_exchange_format, InputIndexDef, InputNodeConstraint};
use ox_ontology::ir::{
    Cardinality, ConstraintDef, EdgeTypeDef, IndexDef, NodeConstraint, NodeTypeDef,
    ObjectMappingDef, OntologyIR, PropertyDef, PropertyLocation, PropertyMapping,
    VectorSimilarity,
};

fn prop(id: &str, name: &str) -> PropertyDef {
    PropertyDef { id: id.to_string(), name: name.to_string(), ..Default::default() }
}

fn column(pid: &str, col: &str) -> PropertyMapping {
    PropertyMapping {
        property_id: pid.to_string(),
        location: PropertyLocation::Column { column: col.to_string() },
    }
}

fn mapping(id: &str, node: &str, relation: &str, precedence: i32, pms: Vec<PropertyMapping>) -> ObjectMappingDef {
    ObjectMappingDef {
        id: id.to_string(),
        source_id: "pg".to_string(),
        relation: relation.to_string(),
        node_type_id: node.to_string(),
        precedence,
        property_mappings: pms,
    }
}

fn ontology() -> OntologyIR {
    let person = NodeTypeDef {
        id: "n1".to_string(),
        label: "Person".to_string(),
        properties: vec![prop("p1", "name"), prop("p2", "email")],
        constraints: vec![
            ConstraintDef {
                id: "c1".to_string(),
                constraint: NodeConstraint::Unique { property_ids: vec!["p2".to_string()] },
            },
            ConstraintDef {
                id: "c2".to_string(),
                constraint: NodeConstraint::Exists { property_id: "p-missing".to_string() },
            },
        ],
        ..Default::default()
    };
    let company = NodeTypeDef {
        id: "n2".to_string(),
        label: "Company".to_string(),
        properties: vec![prop("p3", "title")],
        ..Default::default()
    };
    let works_at = EdgeTypeDef {
        id: "e1".to_string(),
        label: "WORKS_AT".to_string(),
        source_node_id: "n1".to_string(),
        target_node_id: "n-gone".to_string(),
        properties: vec![prop("ep1", "since")],
        cardinality: Cardinality::ManyToOne,
        ..Default::default()
    };
    OntologyIR {
        id: "ont".to_string(),
        name: "Test".to_string(),
        description: "desc".to_string(),
        version: 7,
        node_types: vec![person, company],
        edge_types: vec![works_at],
        indexes: vec![
            IndexDef::Single {
                id: "i1".to_string(),
                node_id: "n1".to_string(),
                property_id: "p1".to_string(),
            },
            IndexDef::Vector {
                id: "i2".to_string(),
                node_id: "n2".to_string(),
                property_id: "p3".to_string(),
                dimensions: 8,
                similarity: VectorSimilarity::Cosine,
            },
        ],
        object_mappings: vec![
            mapping("om1", "n1", "people", 1, vec![column("p1", "full_name")]),
            mapping("om2", "n1", "persons_v2", 5, vec![column("p2", "mail")]),
            mapping("om3", "n1", "persons_old", 2, vec![]),
            mapping(
                "om4",
                "n2",
                "companies",
                0,
                vec![PropertyMapping {
                    property_id: "p3".to_string(),
                    location: PropertyLocation::JsonPath {
                        column: "doc".to_string(),
                        path: "$.title".to_string(),
                    },
                }],
            ),
        ],
        ..Default::default()
    }
}

#[test]
fn header_fields_are_copied() {
    let out = to_exchange_format(&ontology());
    assert_eq!(out.format_version, 1);
    assert_eq!(out.id.as_deref(), Some("ont"));
    assert_eq!(out.name, "Test");
    assert_eq!(out.description, "desc");
    assert_eq!(out.version, 7);
    assert_eq!(out.node_types.len(), 2);
    assert_eq!(out.edge_types.len(), 1);
    assert_eq!(out.indexes.len(), 2);
}

#[test]
fn source_table_is_the_highest_precedence_mapping() {
    let out = to_exchange_format(&ontology());
    assert_eq!(out.node_types[0].source_table.as_deref(), Some("persons_v2"));
    assert_eq!(out.node_types[1].source_table.as_deref(), Some("companies"));
}

#[test]
fn source_columns_come_from_column_locations_only() {
    let out = to_exchange_format(&ontology());
    let person = &out.node_types[0];
    assert_eq!(person.properties[0].source_column.as_deref(), Some("full_name"));
    assert_eq!(person.properties[1].source_column.as_deref(), Some("mail"));
    assert_eq!(out.node_types[1].properties[0].source_column, None);
    assert_eq!(out.edge_types[0].properties[0].source_column, None);
}

#[test]
fn constraints_name_properties_and_keep_ids() {
    let out = to_exchange_format(&ontology());
    let cs = &out.node_types[0].constraints;
    assert_eq!(
        cs[0],
        InputNodeConstraint::Unique { id: Some("c1".to_string()), properties: vec!["email".to_string()] }
    );
    assert_eq!(
        cs[1],
        InputNodeConstraint::Exists { id: Some("c2".to_string()), property: "p-missing".to_string() }
    );
}

#[test]
fn edge_endpoints_are_labels_or_the_raw_id() {
    let out = to_exchange_format(&ontology());
    assert_eq!(out.edge_types[0].source_type, "Person");
    assert_eq!(out.edge_types[0].target_type, "n-gone");
    assert_eq!(out.edge_types[0].cardinality, Cardinality::ManyToOne);
}

#[test]
fn indexes_name_label_and_properties() {
    let out = to_exchange_format(&ontology());
    assert_eq!(
        out.indexes[0],
        InputIndexDef::Single {
            id: Some("i1".to_string()),
            label: "Person".to_string(),
            property: "name".to_string(),
        }
    );
    assert_eq!(
        out.indexes[1],
        InputIndexDef::Vector {
            id: Some("i2".to_string()),
            label: "Company".to_string(),
            property: "title".to_string(),
            dimensions: 8,
            similarity: VectorSimilarity::Cosine,
        }
    );
}

#[test]
fn equal_precedence_prefers_the_later_mapping() {
    let mut o = ontology();
    o.object_mappings = vec![
        mapping("a", "n1", "first", 3, vec![]),
        mapping("b", "n1", "second", 3, vec![]),
    ];
    let out = to_exchange_format(&o);
    assert_eq!(out.node_types[0].source_table.as_deref(), Some("second"));
}
