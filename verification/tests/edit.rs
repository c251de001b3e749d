use ox_ontology::binding::PropertyBinding;
use ox_ontology::change_routing::{ChangeType, ScopeKind};
use ox_ontology::edit::{OntologyEditOp, PropertyOwnerPath};
use ox_ontology::concept::{ConceptDef, ConceptGovernance};
use ox_ontology::glossary::{GlossaryTermDef, TermGovernance, TermLifecycle, TermPos};
use ox_ontology::ir::{
    LinkMappingDef, LinkMappingKind, NodeTypeDef, ObjectMappingDef, OntologyIR, PropertyDef,
    RelationEndpoint,
};
use ox_ontology::registry::{CodeSystemDef, CodeSystemKind, CodedValue};
use ox_ontology::rule::{
    Bilingual, EnforcementKind, RuleActivationKind, RuleDef, RuleKind, RuleOrigin, Severity,
};

fn bare_code_system(id: &str) -> CodeSystemDef {
    CodeSystemDef {
        id: id.to_string(),
        name: id.to_string(),
        display_name: Bilingual::default(),
        description: String::new(),
        uri: None,
        version: "1".into(),
        kind: CodeSystemKind::Internal,
        hierarchical: false,
        codes: vec![],
        deprecated_at: None,
        replaced_by_id: None,
    }
}

fn bare_coded_value(id: &str, code: &str) -> CodedValue {
    CodedValue { id: id.to_string(), code: code.to_string(), ..Default::default() }
}

fn bare_object_mapping(id: &str, relation: &str) -> ObjectMappingDef {
    ObjectMappingDef {
        id: id.to_string(),
        source_id: "pg-main".to_string(),
        relation: relation.to_string(),
        node_type_id: "Customer".to_string(),
        precedence: 0,
        property_mappings: vec![],
    }
}

fn sample_ir_with_property() -> OntologyIR {
    let node = NodeTypeDef {
        id: "Customer".to_string(),
        label: "Customer".to_string(),
        properties: vec![PropertyDef {
            id: "p-tier".to_string(),
            name: "tier".to_string(),
            ..Default::default()
        }],
        ..Default::default()
    };
    OntologyIR {
        id: "ont-test".to_string(),
        name: "Test".to_string(),
        version: 1,
        node_types: vec![node],
        ..Default::default()
    }
}

fn bare_rule(id: &str, name: &str) -> RuleDef {
    RuleDef {
        id: id.to_string(),
        name: Bilingual { en: name.to_string(), ko: String::new() },
        description: String::new(),
        rationale: Bilingual::default(),
        kind: RuleKind::CrossEntityShape { sql: "1 = 1".to_string() },
        severity: Severity::Violation,
        enforcement: EnforcementKind::Write,
        activation: RuleActivationKind::Always,
        origin: RuleOrigin::Authored,
        constraints: Vec::new(),
        valid_from: None,
        valid_to: None,
        sh_message: None,
    }
}

#[test]
fn delete_code_system_signals_large_scope() {
    let op = OntologyEditOp::DeleteCodeSystem { id: "cs-x".to_string() };
    let scopes = op.scopes();
    let code = scopes
        .iter()
        .find(|s| s.kind == ScopeKind::CodeCount)
        .expect("DeleteCodeSystem declares a CodeCount scope");
    assert_eq!(code.value, u32::MAX);
}

#[test]
fn create_coded_value_counts_as_one() {
    let op = OntologyEditOp::CreateCodedValue {
        code_system_id: "cs".to_string(),
        value: bare_coded_value("cv", "A"),
    };
    let scopes = op.scopes();
    let code = scopes
        .iter()
        .find(|s| s.kind == ScopeKind::CodeCount)
        .expect("CreateCodedValue declares a CodeCount scope");
    assert_eq!(code.value, 1);
}

#[test]
fn update_object_mapping_uses_atomic_replace() {
    let mut ir = sample_ir_with_property();
    OntologyEditOp::CreateObjectMapping { mapping: bare_object_mapping("om-customer", "customers") }
        .apply_to(&mut ir)
        .unwrap();
    OntologyEditOp::UpdateObjectMapping {
        id: "om-customer".to_string(),
        mapping: bare_object_mapping("om-customer", "crm_customers"),
    }
    .apply_to(&mut ir)
    .unwrap();
    assert_eq!(ir.object_mappings.len(), 1);
    assert_eq!(ir.object_mappings[0].relation, "crm_customers");
}

#[test]
fn bind_property_missing_property_surfaces_error() {
    let mut ir = sample_ir_with_property();
    let err = OntologyEditOp::BindProperty {
        owner: PropertyOwnerPath::Node { type_id: "Customer".to_string() },
        property_id: "p-missing".to_string(),
        binding: PropertyBinding::value_set("vs-vip".to_string()),
    }
    .apply_to(&mut ir)
    .unwrap_err();
    assert!(err.contains("property `p-missing` not found"));
}

#[test]
fn deprecate_node_type_stamps_timestamp_and_replacement() {
    let mut ir = sample_ir_with_property();
    let before = chrono::Utc::now().timestamp();
    OntologyEditOp::DeprecateNodeType {
        id: "Customer".to_string(),
        replaced_by_id: Some("CustomerV2".to_string()),
    }
    .apply_to(&mut ir)
    .unwrap();
    let node = &ir.node_types[0];
    let ts = node.deprecated_at.expect("deprecated_at set");
    assert!(ts >= before);
    assert_eq!(node.replaced_by_id.as_deref().unwrap(), "CustomerV2");
}

#[test]
fn deprecate_node_type_without_replacement_still_sets_timestamp() {
    let mut ir = sample_ir_with_property();
    OntologyEditOp::DeprecateNodeType { id: "Customer".to_string(), replaced_by_id: None }
        .apply_to(&mut ir)
        .unwrap();
    let node = &ir.node_types[0];
    assert!(node.deprecated_at.is_some());
    assert!(node.replaced_by_id.is_none());
}

#[test]
fn deprecate_missing_node_type_surfaces_error() {
    let mut ir = sample_ir_with_property();
    let err = OntologyEditOp::DeprecateNodeType { id: "Missing".to_string(), replaced_by_id: None }
        .apply_to(&mut ir)
        .unwrap_err();
    assert!(err.contains("node_type `Missing` not found"));
}

#[test]
fn deprecate_type_classifies_as_stale_concept_deprecate() {
    assert_eq!(
        OntologyEditOp::DeprecateNodeType { id: "Customer".to_string(), replaced_by_id: None }
            .classify_change_type(),
        ChangeType::StaleConceptDeprecate,
    );
    assert_eq!(
        OntologyEditOp::DeprecateEdgeType { id: "OWNS".to_string(), replaced_by_id: None }
            .classify_change_type(),
        ChangeType::StaleConceptDeprecate,
    );
}

#[test]
fn create_rule_appends_to_ir() {
    let mut ir = sample_ir_with_property();
    assert!(ir.rules.is_empty());
    OntologyEditOp::CreateRule { def: bare_rule("r-1", "first") }.apply_to(&mut ir).unwrap();
    assert_eq!(ir.rules.len(), 1);
    assert_eq!(ir.rules[0].id.as_str(), "r-1");
}

#[test]
fn create_duplicate_rule_fails_on_apply() {
    let mut ir = sample_ir_with_property();
    OntologyEditOp::CreateRule { def: bare_rule("r-1", "first") }.apply_to(&mut ir).unwrap();
    let err = OntologyEditOp::CreateRule { def: bare_rule("r-1", "dup") }
        .apply_to(&mut ir)
        .unwrap_err();
    assert!(err.to_lowercase().contains("rule"));
}

#[test]
fn update_rule_replaces_in_place() {
    let mut ir = sample_ir_with_property();
    OntologyEditOp::CreateRule { def: bare_rule("r-1", "first") }.apply_to(&mut ir).unwrap();
    OntologyEditOp::UpdateRule { id: "r-1".to_string(), def: bare_rule("r-1", "second") }
        .apply_to(&mut ir)
        .unwrap();
    assert_eq!(ir.rules.len(), 1);
    assert_eq!(ir.rules[0].name.en, "second");
}

#[test]
fn update_rule_path_id_mismatch_rejected() {
    let mut ir = sample_ir_with_property();
    OntologyEditOp::CreateRule { def: bare_rule("r-1", "first") }.apply_to(&mut ir).unwrap();
    let err = OntologyEditOp::UpdateRule { id: "r-1".to_string(), def: bare_rule("r-2", "second") }
        .apply_to(&mut ir)
        .unwrap_err();
    assert!(err.contains("does not match path id"));
}

#[test]
fn delete_rule_removes_entry() {
    let mut ir = sample_ir_with_property();
    OntologyEditOp::CreateRule { def: bare_rule("r-1", "first") }.apply_to(&mut ir).unwrap();
    OntologyEditOp::DeleteRule { id: "r-1".to_string() }.apply_to(&mut ir).unwrap();
    assert!(ir.rules.is_empty());
}

#[test]
fn delete_missing_rule_surfaces_error() {
    let mut ir = sample_ir_with_property();
    let err = OntologyEditOp::DeleteRule { id: "r-missing".to_string() }
        .apply_to(&mut ir)
        .unwrap_err();
    assert!(err.contains("not found") || err.contains("r-missing"));
}

#[test]
fn rule_ops_classify_onto_matrix_rows() {
    assert_eq!(
        OntologyEditOp::CreateRule { def: bare_rule("r", "n") }.classify_change_type(),
        ChangeType::RuleCreate,
    );
    assert_eq!(
        OntologyEditOp::UpdateRule { id: "r".to_string(), def: bare_rule("r", "n") }
            .classify_change_type(),
        ChangeType::RuleModify,
    );
    assert_eq!(
        OntologyEditOp::DeleteRule { id: "r".to_string() }.classify_change_type(),
        ChangeType::RuleDelete,
    );
}

#[test]
fn code_system_and_code_lifecycle() {
    let mut ir = sample_ir_with_property();
    OntologyEditOp::CreateCodeSystem { def: bare_code_system("cs") }.apply_to(&mut ir).unwrap();
    assert!(OntologyEditOp::CreateCodeSystem { def: bare_code_system("cs") }
        .apply_to(&mut ir)
        .is_err());
    OntologyEditOp::CreateCodedValue { code_system_id: "cs".into(), value: bare_coded_value("cv", "A") }
        .apply_to(&mut ir)
        .unwrap();
    let dup = OntologyEditOp::CreateCodedValue {
        code_system_id: "cs".into(),
        value: bare_coded_value("cv", "B"),
    }
    .apply_to(&mut ir);
    assert!(dup.is_err());
    OntologyEditOp::UpdateCodedValue {
        code_system_id: "cs".into(),
        id: "cv".into(),
        value: bare_coded_value("cv", "Z"),
    }
    .apply_to(&mut ir)
    .unwrap();
    assert_eq!(ir.registries.code_systems[0].codes[0].code, "Z");
    OntologyEditOp::DeleteCodedValue { code_system_id: "cs".into(), id: "cv".into() }
        .apply_to(&mut ir)
        .unwrap();
    assert!(ir.registries.code_systems[0].codes.is_empty());
    let missing = OntologyEditOp::DeleteCodedValue { code_system_id: "cs".into(), id: "cv".into() }
        .apply_to(&mut ir);
    assert!(missing.is_err());
    OntologyEditOp::DeleteCodeSystem { id: "cs".into() }.apply_to(&mut ir).unwrap();
    assert!(ir.registries.code_systems.is_empty());
}

#[test]
fn failed_edit_leaves_ontology_unchanged() {
    let mut ir = sample_ir_with_property();
    let before = ir.clone();
    let r = OntologyEditOp::CreateCodedValue {
        code_system_id: "cs-missing".into(),
        value: bare_coded_value("cv", "A"),
    }
    .apply_to(&mut ir);
    assert!(r.is_err());
    assert_eq!(ir, before);
}

#[test]
fn code_system_scope_counts_its_codes() {
    let mut cs = bare_code_system("cs");
    cs.codes = vec![bare_coded_value("a", "A"), bare_coded_value("b", "B")];
    let scopes = OntologyEditOp::CreateCodeSystem { def: cs }.scopes();
    assert_eq!(scopes.len(), 1);
    assert_eq!(scopes[0].value, 2);
    assert_eq!(
        OntologyEditOp::DeleteCodeSystem { id: "cs".into() }.classify_change_type(),
        ChangeType::CodedValueDeprecate
    );
    assert!(OntologyEditOp::DeleteRule { id: "r".into() }.scopes().is_empty());
}

#[test]
fn binding_the_same_binding_twice_changes_nothing_more() {
    let mut once = sample_ir_with_property();
    let bind = || OntologyEditOp::BindProperty {
        owner: PropertyOwnerPath::Node { type_id: "Customer".to_string() },
        property_id: "p-tier".to_string(),
        binding: PropertyBinding::value_set("vs-vip".to_string()),
    };
    bind().apply_to(&mut once).unwrap();
    let mut twice = sample_ir_with_property();
    bind().apply_to(&mut twice).unwrap();
    bind().apply_to(&mut twice).unwrap();
    assert_eq!(once.node_types[0].properties[0].bindings.len(), 1);
    assert_eq!(once, twice);
}

#[test]
fn unbinding_a_value_set_removes_its_binding() {
    let mut ir = sample_ir_with_property();
    let binding = PropertyBinding::value_set("vs-vip".to_string());
    let target = binding.handle();
    OntologyEditOp::BindProperty {
        owner: PropertyOwnerPath::Node { type_id: "Customer".to_string() },
        property_id: "p-tier".to_string(),
        binding,
    }
    .apply_to(&mut ir)
    .unwrap();
    assert_eq!(ir.node_types[0].properties[0].bindings.len(), 1);
    OntologyEditOp::UnbindProperty {
        owner: PropertyOwnerPath::Node { type_id: "Customer".to_string() },
        property_id: "p-tier".to_string(),
        target,
    }
    .apply_to(&mut ir)
    .unwrap();
    assert!(ir.node_types[0].properties[0].bindings.is_empty());
}

#[test]
fn refused_registry_edits_name_the_id() {
    let mut ir = sample_ir_with_property();
    OntologyEditOp::CreateCodeSystem { def: bare_code_system("cs-1") }.apply_to(&mut ir).unwrap();
    let err = OntologyEditOp::CreateCodeSystem { def: bare_code_system("cs-1") }
        .apply_to(&mut ir)
        .unwrap_err();
    assert_eq!(err, "code_system `cs-1` already exists");
    let err = OntologyEditOp::DeleteRule { id: "r-9".to_string() }.apply_to(&mut ir).unwrap_err();
    assert_eq!(err, "rule `r-9` not found");
    let err = OntologyEditOp::DeleteObjectMapping { id: "om-9".to_string() }
        .apply_to(&mut ir)
        .unwrap_err();
    assert_eq!(err, "object mapping `om-9` not found");
}

#[test]
fn refused_property_and_deprecation_edits_name_what_is_missing() {
    let mut ir = sample_ir_with_property();
    let err = OntologyEditOp::BindProperty {
        owner: PropertyOwnerPath::Node { type_id: "Nope".to_string() },
        property_id: "p-tier".to_string(),
        binding: PropertyBinding::value_set("vs-vip".to_string()),
    }
    .apply_to(&mut ir)
    .unwrap_err();
    assert_eq!(err, "node_type `Nope` not found");
    let err = OntologyEditOp::BindProperty {
        owner: PropertyOwnerPath::Node { type_id: "Customer".to_string() },
        property_id: "p-missing".to_string(),
        binding: PropertyBinding::value_set("vs-vip".to_string()),
    }
    .apply_to(&mut ir)
    .unwrap_err();
    assert_eq!(err, "property `p-missing` not found on its owner");
    let err = OntologyEditOp::DeprecateNodeType { id: "Nope".to_string(), replaced_by_id: None }
        .apply_to(&mut ir)
        .unwrap_err();
    assert_eq!(err, "node_type `Nope` not found");
}

fn bare_glossary_term(id: &str, label: &str) -> GlossaryTermDef {
    GlossaryTermDef {
        id: id.to_string(),
        term: Bilingual { en: label.to_string(), ko: String::new() },
        display_name: Bilingual::default(),
        description: Bilingual::default(),
        examples: vec![],
        category: None,
        aliases: vec![],
        related_terms: vec![],
        governance: TermGovernance::default(),
        valid_from: None,
        valid_to: None,
        lifecycle: TermLifecycle::default(),
        concept_id: None,
        term_pos: TermPos::default(),
    }
}

fn bare_concept(id: &str, canonical_term: &str) -> ConceptDef {
    ConceptDef {
        id: id.to_string(),
        canonical_term_id: canonical_term.to_string(),
        alias_term_ids: vec![],
        broader: None,
        description: Bilingual::default(),
        examples: vec![],
        category: None,
        realisation: None,
        lifecycle: TermLifecycle::default(),
        replaced_by: None,
        valid_from: None,
        valid_to: None,
        governance: ConceptGovernance::default(),
    }
}

fn empty_ir() -> OntologyIR {
    OntologyIR { id: "ont-test".to_string(), name: "Test".to_string(), version: 1, ..Default::default() }
}

fn sample_ir_with_concepts() -> OntologyIR {
    let mut ir = empty_ir();
    for (term_id, label, concept_id) in
        [("gt-party", "Party", "c-party"), ("gt-customer", "Customer", "c-customer"), ("gt-client", "Client", "c-client")]
    {
        let mut term = bare_glossary_term(term_id, label);
        term.concept_id = Some(concept_id.to_string());
        OntologyEditOp::CreateGlossaryTerm { def: term }.apply_to(&mut ir).unwrap();
    }
    OntologyEditOp::CreateConcept { def: bare_concept("c-party", "gt-party") }.apply_to(&mut ir).unwrap();
    let mut customer = bare_concept("c-customer", "gt-customer");
    customer.broader = Some("c-party".to_string());
    OntologyEditOp::CreateConcept { def: customer }.apply_to(&mut ir).unwrap();
    OntologyEditOp::CreateConcept { def: bare_concept("c-client", "gt-client") }.apply_to(&mut ir).unwrap();
    ir
}

fn bare_link_mapping(id: &str, predicate: &str) -> LinkMappingDef {
    let endpoint = RelationEndpoint { source_id: "pg-main".to_string(), relation: "customers".to_string() };
    LinkMappingDef {
        id: id.to_string(),
        edge_type_id: "KNOWS".to_string(),
        source_endpoint: endpoint.clone(),
        target_endpoint: endpoint,
        kind: LinkMappingKind::Computed { predicate: predicate.to_string() },
    }
}

#[test]
fn create_concept_op_adds_registry_concept() {
    let mut ir = empty_ir();
    let mut term = bare_glossary_term("gt-customer", "Customer");
    term.concept_id = Some("c-customer".to_string());
    OntologyEditOp::CreateGlossaryTerm { def: term }.apply_to(&mut ir).unwrap();
    OntologyEditOp::CreateConcept { def: bare_concept("c-customer", "gt-customer") }.apply_to(&mut ir).unwrap();
    let concept = ir.registries.concepts.iter().find(|c| c.id == "c-customer").unwrap();
    assert_eq!(concept.canonical_term_id, "gt-customer");
}

#[test]
fn update_concept_op_uses_atomic_replace() {
    let mut ir = sample_ir_with_concepts();
    let mut replacement = bare_concept("c-party", "gt-party");
    replacement.broader = Some("c-customer".to_string());
    let err = OntologyEditOp::UpdateConcept { id: "c-party".to_string(), def: replacement }
        .apply_to(&mut ir)
        .unwrap_err();
    assert!(err.contains("concept.broader.cycle"));
    assert!(ir.registries.concepts.iter().find(|c| c.id == "c-party").unwrap().broader.is_none());
}

#[test]
fn delete_concept_op_rejects_referenced_concept() {
    let mut ir = sample_ir_with_concepts();
    let err = OntologyEditOp::DeleteConcept { id: "c-party".to_string() }.apply_to(&mut ir).unwrap_err();
    assert!(err.contains("concept.in_use_by_glossary_term"));
    assert!(ir.registries.concepts.iter().any(|c| c.id == "c-party"));
}

#[test]
fn update_link_mapping_uses_atomic_replace() {
    let mut ir = sample_ir_with_property();
    OntologyEditOp::CreateLinkMapping { mapping: bare_link_mapping("lm-knows", "a.id = b.id") }
        .apply_to(&mut ir)
        .unwrap();
    OntologyEditOp::UpdateLinkMapping {
        id: "lm-knows".to_string(),
        mapping: bare_link_mapping("lm-knows", "a.manager_id = b.id"),
    }
    .apply_to(&mut ir)
    .unwrap();
    assert_eq!(ir.link_mappings.len(), 1);
    assert!(matches!(
        &ir.link_mappings[0].kind,
        LinkMappingKind::Computed { predicate } if predicate == "a.manager_id = b.id"
    ));
}

#[test]
fn all_create_variants_classify_without_panic() {
    let ops = [
        OntologyEditOp::CreateCodeSystem { def: bare_code_system("cs") },
        OntologyEditOp::CreateConcept { def: bare_concept("c-term", "g") },
        OntologyEditOp::CreateGlossaryTerm { def: bare_glossary_term("g", "term") },
        OntologyEditOp::DeleteCodeSystem { id: "cs".to_string() },
    ];
    for op in &ops {
        let _ = op.classify_change_type();
        let _ = op.scopes();
    }
}

#[test]
fn glossary_term_has_no_scope() {
    let op = OntologyEditOp::CreateGlossaryTerm { def: bare_glossary_term("g", "term") };
    assert!(op.scopes().is_empty());
}

#[test]
fn vocabulary_edits_route_as_terminology_registry_updates() {
    let ops = [
        OntologyEditOp::CreateConcept { def: bare_concept("c", "g") },
        OntologyEditOp::UpdateConcept { id: "c".to_string(), def: bare_concept("c", "g") },
        OntologyEditOp::DeleteConcept { id: "c".to_string() },
        OntologyEditOp::CreateGlossaryTerm { def: bare_glossary_term("g", "term") },
        OntologyEditOp::UpdateGlossaryTerm { id: "g".to_string(), def: bare_glossary_term("g", "term") },
        OntologyEditOp::DeleteGlossaryTerm { id: "g".to_string() },
    ];
    for op in &ops {
        assert_eq!(op.classify_change_type(), ChangeType::TerminologyRegistryUpdate);
    }
}

#[test]
fn concept_and_glossary_edits_name_what_is_refused() {
    let mut ir = sample_ir_with_concepts();
    let err = OntologyEditOp::UpdateConcept { id: "c-party".to_string(), def: bare_concept("c-other", "gt-party") }
        .apply_to(&mut ir)
        .unwrap_err();
    assert_eq!(err, "update_concept: def.id (c-other) does not match path id (c-party)");
    let err = OntologyEditOp::CreateConcept { def: bare_concept("c-party", "gt-party") }
        .apply_to(&mut ir)
        .unwrap_err();
    assert_eq!(err, "concept `c-party` already exists");
    let mut own_parent = bare_concept("c-self", "gt-party");
    own_parent.broader = Some("c-self".to_string());
    let err = OntologyEditOp::CreateConcept { def: own_parent }.apply_to(&mut ir).unwrap_err();
    assert_eq!(err, "concept.broader.cycle: concept `c-self` would be its own broader ancestor");
    let err = OntologyEditOp::DeleteConcept { id: "c-party".to_string() }.apply_to(&mut ir).unwrap_err();
    assert_eq!(err, "concept.in_use_by_glossary_term: concept `c-party` is still named by a glossary term");
    let err = OntologyEditOp::UpdateGlossaryTerm {
        id: "gt-party".to_string(),
        def: bare_glossary_term("gt-x", "X"),
    }
    .apply_to(&mut ir)
    .unwrap_err();
    assert_eq!(err, "update_glossary_term: def.id (gt-x) does not match path id (gt-party)");
    let err = OntologyEditOp::DeleteGlossaryTerm { id: "gt-none".to_string() }.apply_to(&mut ir).unwrap_err();
    assert_eq!(err, "glossary_term `gt-none` not found");
}

#[test]
fn a_concept_no_term_names_can_be_deleted_and_terms_replaced() {
    let mut ir = sample_ir_with_concepts();
    let mut term = bare_glossary_term("gt-client", "Client");
    term.concept_id = None;
    OntologyEditOp::UpdateGlossaryTerm { id: "gt-client".to_string(), def: term }.apply_to(&mut ir).unwrap();
    OntologyEditOp::DeleteConcept { id: "c-client".to_string() }.apply_to(&mut ir).unwrap();
    assert_eq!(ir.registries.concepts.len(), 2);
    OntologyEditOp::DeleteGlossaryTerm { id: "gt-client".to_string() }.apply_to(&mut ir).unwrap();
    assert_eq!(ir.registries.glossary_terms.len(), 2);
}

#[test]
fn bind_property_appends_to_bindings_list() {
    let mut ir = sample_ir_with_property();
    OntologyEditOp::BindProperty {
        owner: PropertyOwnerPath::Node { type_id: "Customer".to_string() },
        property_id: "p-tier".to_string(),
        binding: PropertyBinding::concept("c-vip".to_string()),
    }
    .apply_to(&mut ir)
    .unwrap();
    let prop = &ir.node_types[0].properties[0];
    assert_eq!(prop.concept_id().unwrap().as_str(), "c-vip");
}

#[test]
fn unbind_property_removes_matching_target() {
    let mut ir = sample_ir_with_property();
    OntologyEditOp::BindProperty {
        owner: PropertyOwnerPath::Node { type_id: "Customer".to_string() },
        property_id: "p-tier".to_string(),
        binding: PropertyBinding::concept("c-vip".to_string()),
    }
    .apply_to(&mut ir)
    .unwrap();
    OntologyEditOp::UnbindProperty {
        owner: PropertyOwnerPath::Node { type_id: "Customer".to_string() },
        property_id: "p-tier".to_string(),
        target: ox_ontology::binding::PropertyBindingHandle::Concept { id: "c-vip".to_string() },
    }
    .apply_to(&mut ir)
    .unwrap();
    assert!(ir.node_types[0].properties[0].concept_id().is_none());
}
