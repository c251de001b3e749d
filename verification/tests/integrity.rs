use ox_ontology::binding::PropertyBinding;
use ox_ontology::integrity::{
    render_dangling_references, DanglingKind, DanglingReference, RegistryReferenceCheck,
    RegistrySite,
};
use ox_ontology::ir::{NodeTypeDef, OntologyIR, PropertyDef};
use ox_ontology::registry::{
    CodeSystemDef, CodeSystemKind, CodedValue, ConceptMapDef, ConceptMapping, Equivalence,
    ValueSetDef, ValueSetIncludeRule, ValueSetSelector,
};
use ox_ontology::rule::{
    Bilingual, ConstraintTarget, EnforcementKind, RuleActivationKind, RuleDef, RuleKind,
    RuleOrigin, Severity, ShaclConstraint,
};

fn p_with(name: &str, f: impl FnOnce(&mut PropertyDef)) -> PropertyDef {
    let mut p = PropertyDef {
        id: format!("p-{name}"),
        name: name.to_string(),
        ..Default::default()
    };
    f(&mut p);
    p
}

fn ontology_with_properties(props: Vec<PropertyDef>) -> OntologyIR {
    OntologyIR {
        id: "ont".into(),
        name: "Test".into(),
        version: 1,
        node_types: vec![NodeTypeDef {
            id: "nt".into(),
            label: "N".into(),
            properties: props,
            ..Default::default()
        }],
        ..Default::default()
    }
}

fn cv(id: &str, code: &str) -> CodedValue {
    CodedValue { id: id.into(), code: code.into(), ..Default::default() }
}

fn code_system(id: &str, hierarchical: bool, codes: Vec<CodedValue>) -> CodeSystemDef {
    CodeSystemDef {
        id: id.into(),
        name: id.into(),
        display_name: Bilingual::default(),
        description: String::new(),
        uri: None,
        version: "1".into(),
        kind: CodeSystemKind::Internal,
        hierarchical,
        codes,
        deprecated_at: None,
        replaced_by_id: None,
    }
}

#[test]
fn empty_ontology_has_no_dangling_refs() {
    let ir = ontology_with_properties(vec![p_with("name", |_| {})]);
    assert!(ir.dangling_references().is_empty());
}

#[test]
fn property_with_missing_value_set_surfaces() {
    let ir = ontology_with_properties(vec![p_with("status", |p| {
        p.bindings.push(PropertyBinding::value_set("vs-missing".to_string()));
    })]);
    let refs = ir.dangling_references();
    assert_eq!(refs.len(), 1);
    assert_eq!(refs[0].kind, DanglingKind::ValueSet);
}

#[test]
fn rule_referencing_missing_value_set_surfaces() {
    let mut ir = ontology_with_properties(vec![p_with("status", |_| {})]);
    ir.rules.push(RuleDef {
        id: "r".into(),
        name: Bilingual { en: "enum_status".into(), ko: String::new() },
        description: String::new(),
        rationale: Bilingual::default(),
        kind: RuleKind::PropertyShape {
            target_node_type_id: "nt".into(),
            target_property_id: "p-status".into(),
        },
        severity: Severity::Violation,
        enforcement: EnforcementKind::Write,
        activation: RuleActivationKind::Always,
        origin: RuleOrigin::Authored,
        constraints: vec![ShaclConstraint::InValueSet {
            target: ConstraintTarget::Inherit,
            value_set_id: "vs-missing".into(),
        }],
        valid_from: None,
        valid_to: None,
        sh_message: None,
    });
    let refs = ir.dangling_references();
    assert_eq!(refs.len(), 1);
    assert!(matches!(&refs[0].source, RegistrySite::Rule { .. }));
}

#[test]
fn unit_id_without_hosting_code_system_surfaces() {
    let ir = ontology_with_properties(vec![p_with("weight_kg", |p| {
        p.unit_id = Some("cv-kg-missing".into());
    })]);
    let refs = ir.dangling_references();
    assert_eq!(refs.len(), 1);
    assert_eq!(refs[0].kind, DanglingKind::CodedValue);
}

#[test]
fn unit_id_resolving_inside_an_existing_code_system_passes() {
    let cs = code_system("cs-ucum", false, vec![cv("cv-kg", "kg")]);
    let mut ir = ontology_with_properties(vec![p_with("weight_kg", |p| {
        p.unit_id = Some("cv-kg".into());
    })]);
    ir.registries.code_systems.push(cs);
    assert!(ir.dangling_references().is_empty());
}

#[test]
fn explicit_value_set_code_missing_from_system_surfaces() {
    let mut ir = ontology_with_properties(vec![]);
    ir.registries
        .code_systems
        .push(code_system("cs-status", false, vec![cv("cv-active", "ACTIVE")]));
    ir.registries.value_sets.push(ValueSetDef {
        id: "vs-status".into(),
        name: "Status".into(),
        composition: vec![ValueSetIncludeRule {
            system_id: "cs-status".into(),
            selector: ValueSetSelector::Explicit {
                codes: vec!["ACTIVE".into(), "MISSING".into()],
            },
        }],
    });
    let refs = ir.dangling_references();
    assert_eq!(refs.len(), 1);
    assert_eq!(refs[0].kind, DanglingKind::Code);
    assert_eq!(refs[0].missing_id, "MISSING");
    assert!(matches!(&refs[0].source, RegistrySite::ValueSet { .. }));
}

#[test]
fn descendants_value_set_missing_root_surfaces() {
    let mut ir = ontology_with_properties(vec![]);
    ir.registries
        .code_systems
        .push(code_system("cs-topic", true, vec![cv("cv-root", "ROOT")]));
    ir.registries.value_sets.push(ValueSetDef {
        id: "vs-topic".into(),
        name: "TopicDescendants".into(),
        composition: vec![ValueSetIncludeRule {
            system_id: "cs-topic".into(),
            selector: ValueSetSelector::DescendantsOf { root_id: "cv-missing-root".into() },
        }],
    });
    let refs = ir.dangling_references();
    assert_eq!(refs.len(), 1);
    assert_eq!(refs[0].kind, DanglingKind::CodedValue);
    assert_eq!(refs[0].missing_id, "cv-missing-root");
}

#[test]
fn concept_map_mapping_code_missing_from_declared_system_surfaces() {
    let mut ir = ontology_with_properties(vec![]);
    ir.registries
        .code_systems
        .push(code_system("cs-source", false, vec![cv("cv-active", "ACTIVE")]));
    ir.registries.code_systems.push(code_system("cs-target", false, vec![cv("cv-a", "A")]));
    ir.registries.concept_maps.push(ConceptMapDef {
        id: "cm-status".into(),
        name: "StatusMap".into(),
        display_name: String::new(),
        description: String::new(),
        version: "1".into(),
        source_system_id: "cs-source".into(),
        target_system_id: "cs-target".into(),
        mappings: vec![ConceptMapping {
            source_code: "MISSING_SOURCE".into(),
            target_code: "MISSING_TARGET".into(),
            equivalence: Equivalence::Equivalent,
            comment: String::new(),
        }],
    });
    let refs = ir.dangling_references();
    assert_eq!(refs.len(), 2);
    assert!(refs.iter().any(|r| {
        r.kind == DanglingKind::Code
            && r.missing_id == "MISSING_SOURCE"
            && matches!(&r.source, RegistrySite::ConceptMapMapping { field: "source_code", .. })
    }));
    assert!(refs.iter().any(|r| {
        r.kind == DanglingKind::Code
            && r.missing_id == "MISSING_TARGET"
            && matches!(&r.source, RegistrySite::ConceptMapMapping { field: "target_code", .. })
    }));
}

#[test]
fn binding_with_missing_concept_map_surfaces() {
    let mut ir = ontology_with_properties(vec![p_with("status", |p| {
        p.bindings.push(
            PropertyBinding::value_set("vs-status".to_string()).with_concept_map("cm-missing".to_string()),
        );
    })]);
    ir.registries
        .code_systems
        .push(code_system("cs-status", false, vec![cv("cv-active", "ACTIVE")]));
    ir.registries.value_sets.push(ValueSetDef {
        id: "vs-status".into(),
        name: "Status".into(),
        composition: vec![ValueSetIncludeRule {
            system_id: "cs-status".into(),
            selector: ValueSetSelector::All,
        }],
    });
    let refs = ir.dangling_references();
    assert_eq!(refs.len(), 1);
    assert_eq!(refs[0].kind, DanglingKind::ConceptMap);
    assert_eq!(refs[0].missing_id, "cm-missing");
}

#[test]
fn concept_map_with_missing_systems_reports_both_and_skips_codes() {
    let mut ir = ontology_with_properties(vec![]);
    ir.registries.concept_maps.push(ConceptMapDef {
        id: "cm".into(),
        name: "Lost".into(),
        display_name: String::new(),
        description: String::new(),
        version: "1".into(),
        source_system_id: "cs-a".into(),
        target_system_id: "cs-b".into(),
        mappings: vec![ConceptMapping {
            source_code: "X".into(),
            target_code: "Y".into(),
            equivalence: Equivalence::Related,
            comment: String::new(),
        }],
    });
    let refs = ir.dangling_references();
    assert_eq!(refs.len(), 2);
    assert!(matches!(&refs[0].source, RegistrySite::ConceptMap { field: "source_system_id", .. }));
    assert!(matches!(&refs[1].source, RegistrySite::ConceptMap { field: "target_system_id", .. }));
}

#[test]
fn renders_property_site_diagnostic() {
    let refs = vec![DanglingReference {
        source: RegistrySite::Property {
            owner_label: "Order".into(),
            property_name: "status".into(),
            field: "bindings.value_set",
        },
        kind: DanglingKind::ValueSet,
        missing_id: "vs-x".into(),
    }];
    let out = render_dangling_references(&refs);
    assert_eq!(out.len(), 1);
    assert_eq!(out[0].code, "ontology.validate.integrity.dangling_value_set");
    assert_eq!(
        out[0].message,
        "property `Order.status.bindings.value_set` references unknown value_set `vs-x`"
    );
    assert_eq!(out[0].params[0], ("site_kind".to_string(), "property".to_string()));
    assert_eq!(out[0].params.last().unwrap(), &("missing_id".to_string(), "vs-x".to_string()));
}

#[test]
fn renders_indexed_sites_with_decimal_indices() {
    let refs = vec![
        DanglingReference {
            source: RegistrySite::ValueSet { value_set_name: "Status".into(), rule_index: 12 },
            kind: DanglingKind::CodeSystem,
            missing_id: "cs-x".into(),
        },
        DanglingReference {
            source: RegistrySite::ConceptMapMapping {
                concept_map_name: "M".into(),
                mapping_index: 3,
                field: "target_code",
            },
            kind: DanglingKind::Code,
            missing_id: "Q".into(),
        },
        DanglingReference {
            source: RegistrySite::Rule { rule_name: "r1".into(), constraint_kind: "InValueSet" },
            kind: DanglingKind::ValueSet,
            missing_id: "vs".into(),
        },
    ];
    let out = render_dangling_references(&refs);
    assert_eq!(
        out[0].message,
        "value set `Status` (composition rule 12) references unknown code_system `cs-x`"
    );
    assert!(out[0].params.contains(&("rule_index".to_string(), "12".to_string())));
    assert_eq!(
        out[1].message,
        "concept map `M` mapping 3 field `target_code` references unknown code `Q`"
    );
    assert_eq!(out[2].message, "rule `r1` (InValueSet constraint) references unknown value_set `vs`");
    assert_eq!(out[2].code, "ontology.validate.integrity.dangling_value_set");
}

#[test]
fn property_with_missing_concept_surfaces() {
    let ir = ontology_with_properties(vec![p_with("name", |p| {
        p.bindings.push(PropertyBinding::concept("c-missing".to_string()));
    })]);
    let refs = ir.dangling_references();
    assert_eq!(refs.len(), 1);
    assert_eq!(refs[0].kind, DanglingKind::Concept);
    assert_eq!(refs[0].missing_id, "c-missing");
}
