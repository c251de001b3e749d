use ox_ontology::command::OntologyCommand;
use ox_ontology::ir::{
    EdgeTypeDef, LinkMappingDef, LinkMappingKind, NodeTypeDef, ObjectMappingDef, OntologyIR,
    RelationEndpoint,
};
use ox_ontology::retract::build_retract_source_batch;

fn empty_ontology() -> OntologyIR {
    OntologyIR {
        id: "ont".to_string(),
        name: "test".to_string(),
        version: 1,
        ..Default::default()
    }
}

fn add_node(ir: &mut OntologyIR, id: &str, label: &str) {
    ir.node_types.push(NodeTypeDef {
        id: id.to_string(),
        label: label.to_string(),
        ..Default::default()
    });
}

fn add_mapping(ir: &mut OntologyIR, id: &str, node: &str, source: &str, table: &str) {
    ir.object_mappings.push(ObjectMappingDef {
        id: id.to_string(),
        source_id: source.to_string(),
        relation: table.to_string(),
        node_type_id: node.to_string(),
        precedence: 0,
        property_mappings: vec![],
    });
}

fn add_edge(ir: &mut OntologyIR, id: &str, src: &str, tgt: &str) {
    ir.edge_types.push(EdgeTypeDef {
        id: id.to_string(),
        label: id.to_uppercase(),
        source_node_id: src.to_string(),
        target_node_id: tgt.to_string(),
        ..Default::default()
    });
}

fn add_link(ir: &mut OntologyIR, id: &str, edge: &str, from: (&str, &str), to: (&str, &str)) {
    ir.link_mappings.push(LinkMappingDef {
        id: id.to_string(),
        edge_type_id: edge.to_string(),
        source_endpoint: RelationEndpoint {
            source_id: from.0.to_string(),
            relation: from.1.to_string(),
        },
        target_endpoint: RelationEndpoint { source_id: to.0.to_string(), relation: to.1.to_string() },
        kind: LinkMappingKind::ForeignKey,
    });
}

fn tables(names: &[&str]) -> Vec<String> {
    names.iter().map(|s| s.to_string()).collect()
}

fn batch_parts(c: OntologyCommand) -> (String, Vec<OntologyCommand>) {
    match c {
        OntologyCommand::Batch { description, commands } => (description, commands),
        _ => panic!("expected Batch"),
    }
}

#[test]
fn empty_drop_set_produces_empty_batch() {
    let ir = empty_ontology();
    let (_, commands) = batch_parts(build_retract_source_batch(&ir, "pg-main", &Vec::new()));
    assert!(commands.is_empty());
}

#[test]
fn dropping_a_table_removes_its_object_mapping_and_orphaned_node() {
    let mut ir = empty_ontology();
    add_node(&mut ir, "nt-user", "User");
    add_mapping(&mut ir, "om-user", "nt-user", "pg-main", "users");

    let (_, commands) =
        batch_parts(build_retract_source_batch(&ir, "pg-main", &tables(&["users"])));
    assert_eq!(commands.len(), 2);
    assert!(commands.iter().any(|c| matches!(
        c,
        OntologyCommand::DeleteObjectMapping { id } if id.as_str() == "om-user"
    )));
    assert!(commands.iter().any(|c| matches!(
        c,
        OntologyCommand::DeleteNode { node_id } if node_id.as_str() == "nt-user"
    )));
}

#[test]
fn node_with_another_source_mapping_survives_retraction() {
    let mut ir = empty_ontology();
    add_node(&mut ir, "nt-user", "User");
    add_mapping(&mut ir, "om-pg", "nt-user", "pg-main", "users");
    add_mapping(&mut ir, "om-mysql", "nt-user", "mysql-aux", "users");

    let (_, commands) =
        batch_parts(build_retract_source_batch(&ir, "pg-main", &tables(&["users"])));
    assert_eq!(commands.len(), 1);
    assert!(matches!(
        &commands[0],
        OntologyCommand::DeleteObjectMapping { id } if id.as_str() == "om-pg"
    ));
}

#[test]
fn other_source_mapping_is_not_touched() {
    let mut ir = empty_ontology();
    add_node(&mut ir, "nt-order", "Order");
    add_mapping(&mut ir, "om-pg", "nt-order", "pg-main", "orders");

    let (_, commands) =
        batch_parts(build_retract_source_batch(&ir, "snowflake-aux", &tables(&["orders"])));
    assert!(commands.is_empty());
}

#[test]
fn batch_description_names_source_and_tables_for_audit_trail() {
    let ir = empty_ontology();
    let (description, _) =
        batch_parts(build_retract_source_batch(&ir, "pg-main", &tables(&["users", "orders"])));
    assert!(description.contains("pg-main"));
    assert!(description.contains("users"));
    assert!(description.contains("orders"));
}

#[test]
fn description_lists_tables_sorted_once() {
    let ir = empty_ontology();
    let (description, _) = batch_parts(build_retract_source_batch(
        &ir,
        "pg-main",
        &tables(&["users", "orders", "users"]),
    ));
    assert_eq!(description, "Retract source 'pg-main' tables: orders, users");
}

#[test]
fn table_order_and_repeats_do_not_change_the_batch() {
    let mut ir = empty_ontology();
    add_node(&mut ir, "nt-user", "User");
    add_node(&mut ir, "nt-order", "Order");
    add_mapping(&mut ir, "om-user", "nt-user", "pg-main", "users");
    add_mapping(&mut ir, "om-order", "nt-order", "pg-main", "orders");
    let a = build_retract_source_batch(&ir, "pg-main", &tables(&["users", "orders"]));
    let b = build_retract_source_batch(&ir, "pg-main", &tables(&["orders", "users", "orders"]));
    assert_eq!(format!("{:?}", a), format!("{:?}", b));
}

#[test]
fn edge_whose_only_link_touches_a_dropped_table_is_deleted() {
    let mut ir = empty_ontology();
    add_node(&mut ir, "nt-user", "User");
    add_node(&mut ir, "nt-order", "Order");
    add_mapping(&mut ir, "om-user", "nt-user", "pg-main", "users");
    add_mapping(&mut ir, "om-order", "nt-order", "mysql-aux", "orders");
    add_edge(&mut ir, "et-placed", "nt-user", "nt-order");
    add_link(&mut ir, "lm-placed", "et-placed", ("pg-main", "users"), ("mysql-aux", "orders"));

    let (_, commands) =
        batch_parts(build_retract_source_batch(&ir, "pg-main", &tables(&["users"])));
    assert_eq!(commands.len(), 3);
    assert!(matches!(
        &commands[0],
        OntologyCommand::DeleteObjectMapping { id } if id.as_str() == "om-user"
    ));
    assert!(matches!(
        &commands[1],
        OntologyCommand::DeleteNode { node_id } if node_id.as_str() == "nt-user"
    ));
    assert!(matches!(
        &commands[2],
        OntologyCommand::DeleteEdge { edge_id } if edge_id.as_str() == "et-placed"
    ));
}

#[test]
fn edge_with_a_clear_link_survives() {
    let mut ir = empty_ontology();
    add_node(&mut ir, "nt-user", "User");
    add_node(&mut ir, "nt-order", "Order");
    add_edge(&mut ir, "et-placed", "nt-user", "nt-order");
    add_link(&mut ir, "lm-pg", "et-placed", ("pg-main", "users"), ("pg-main", "orders"));
    add_link(&mut ir, "lm-my", "et-placed", ("mysql-aux", "users"), ("mysql-aux", "orders"));

    let (_, commands) =
        batch_parts(build_retract_source_batch(&ir, "pg-main", &tables(&["orders"])));
    assert!(commands.is_empty());
}
