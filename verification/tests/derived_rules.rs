use ox_ontology::binding::{BindingStrength, PropertyBinding};
use ox_ontology::derived_rules::DERIVED_BINDING_RULE_PREFIX;
use ox_ontology::ir::{NodeTypeDef, OntologyIR, PropertyDef};
use ox_ontology::rule::{
    Bilingual, ConstraintSignature, ConstraintTarget, EnforcementKind, RuleActivationKind,
    RuleDef, RuleKind, RuleOrigin, Severity, ShaclConstraint,
};

fn ontology_with(nullable: bool, bindings: Vec<PropertyBinding>) -> OntologyIR {
    OntologyIR {
        id: "ont".into(),
        name: "DerivedRulesTest".into(),
        node_types: vec![NodeTypeDef {
            id: "nt-x".into(),
            label: "X".into(),
            properties: vec![PropertyDef {
                id: "p-x".into(),
                name: "x".into(),
                nullable,
                bindings,
                ..Default::default()
            }],
            ..Default::default()
        }],
        ..Default::default()
    }
}

fn value_set(id: &str, strength: BindingStrength) -> PropertyBinding {
    PropertyBinding::ValueSet {
        id: id.into(),
        strength,
        concept_map_id: None,
        valid_from: Some(10),
        valid_to: Some(20),
    }
}

fn authored(id: &str, kind: RuleKind, constraint: ShaclConstraint) -> RuleDef {
    RuleDef {
        id: id.into(),
        name: Bilingual::default(),
        description: String::new(),
        rationale: Bilingual::default(),
        kind,
        severity: Severity::Warning,
        enforcement: EnforcementKind::Advisory,
        activation: RuleActivationKind::Always,
        origin: RuleOrigin::Authored,
        constraints: vec![constraint],
        valid_from: None,
        valid_to: None,
        sh_message: None,
    }
}

fn shape() -> RuleKind {
    RuleKind::PropertyShape { target_node_type_id: "nt-x".into(), target_property_id: "p-x".into() }
}

#[test]
fn code_system_required_binding_yields_no_derived_rule_today() {
    let o = ontology_with(
        true,
        vec![PropertyBinding::CodeSystem {
            id: "cs".into(),
            strength: BindingStrength::Required,
            concept_map_id: None,
            valid_from: None,
            valid_to: None,
        }],
    );
    assert!(o.derive_binding_rules().is_empty());
}

#[test]
fn preferred_binding_yields_no_derived_rule() {
    let o = ontology_with(true, vec![value_set("vs", BindingStrength::Preferred)]);
    assert!(o.derive_binding_rules().is_empty());
}

#[test]
fn derived_rule_carries_provenance_back_to_source_binding() {
    let o = ontology_with(true, vec![value_set("vs-1", BindingStrength::Required)]);
    let derived = o.derive_binding_rules();
    assert_eq!(derived.len(), 1);
    let rule = &derived[0];
    assert!(matches!(&rule.origin, RuleOrigin::DerivedFromBinding { node_type_id, property_id }
        if node_type_id == "nt-x" && property_id == "p-x"));
    assert!(matches!(&rule.constraints[0], ShaclConstraint::InValueSet { value_set_id, target: ConstraintTarget::Inherit } if value_set_id == "vs-1"));
    assert!(rule.id.starts_with(DERIVED_BINDING_RULE_PREFIX));
    assert_eq!(rule.id, "derived:binding:nt-x:p-x:value_set:vs-1");
    assert_eq!(rule.name.en, "X.x required-binding enforcement");
    assert_eq!(rule.severity, Severity::Violation);
    assert_eq!(rule.enforcement, EnforcementKind::Write);
    assert_eq!(rule.valid_from, Some(10));
    assert_eq!(rule.valid_to, Some(20));
}

#[test]
fn notation_pattern_binding_derives_matches_pattern() {
    let o = ontology_with(
        true,
        vec![PropertyBinding::NotationPattern {
            id: "np-1".into(),
            strength: BindingStrength::Required,
            valid_from: None,
            valid_to: None,
        }],
    );
    let derived = o.derive_binding_rules();
    assert_eq!(derived[0].id, "derived:binding:nt-x:p-x:notation_pattern:np-1");
    assert!(matches!(&derived[0].constraints[0], ShaclConstraint::MatchesPattern { .. }));
}

#[test]
fn derived_rule_skipped_when_authored_in_value_set_already_covers() {
    let mut o = ontology_with(true, vec![value_set("vs-1", BindingStrength::Required)]);
    o.rules.push(authored(
        "r-auth",
        shape(),
        ShaclConstraint::InValueSet { target: ConstraintTarget::Inherit, value_set_id: "vs-1".into() },
    ));
    assert!(o.derive_binding_rules().is_empty());
}

#[test]
fn derived_rule_kept_when_authored_targets_different_value_set_id() {
    let mut o = ontology_with(true, vec![value_set("vs-1", BindingStrength::Required)]);
    o.rules.push(authored(
        "r-auth",
        shape(),
        ShaclConstraint::InValueSet { target: ConstraintTarget::Inherit, value_set_id: "vs-2".into() },
    ));
    let derived = o.derive_binding_rules();
    assert_eq!(derived.len(), 1);
    assert!(matches!(
        derived[0].constraints.as_slice(),
        [ShaclConstraint::InValueSet { value_set_id, .. }] if value_set_id.as_str() == "vs-1"
    ));
}

#[test]
fn derived_rule_kept_when_authored_uses_dedup_independent_constraint_kind() {
    let mut o = ontology_with(true, vec![value_set("vs-1", BindingStrength::Required)]);
    o.rules.push(authored(
        "r-auth",
        shape(),
        ShaclConstraint::MinCount { target: ConstraintTarget::Inherit, min: 1 },
    ));
    assert_eq!(o.derive_binding_rules().len(), 1);
    let authored_sigs = o.authored_constraint_signatures();
    assert_eq!(authored_sigs.len(), 1);
    assert!(authored_sigs.iter().any(|(_, _, sig)| matches!(sig, ConstraintSignature::MinCount)));
}

#[test]
fn node_shape_rule_with_explicit_property_constraint_dedups_derived_rule() {
    let mut o = ontology_with(true, vec![value_set("vs-1", BindingStrength::Required)]);
    o.rules.push(authored(
        "r-node",
        RuleKind::NodeShape { target_node_type_id: "nt-x".into() },
        ShaclConstraint::InValueSet {
            target: ConstraintTarget::Property { node_type_id: "nt-x".into(), property_id: "p-x".into() },
            value_set_id: "vs-1".into(),
        },
    ));
    assert!(o.derive_binding_rules().is_empty());
    let sigs = o.authored_constraint_signatures();
    assert_eq!(sigs.len(), 1);
    assert_eq!(
        sigs[0],
        ("nt-x".to_string(), "p-x".to_string(), ConstraintSignature::InValueSet { value_set_id: "vs-1".into() })
    );
}

#[test]
fn nullable_false_derives_min_count_one() {
    let o = ontology_with(false, vec![]);
    let derived = o.derive_nullable_rules();
    assert_eq!(derived.len(), 1, "nullable=false must derive: {derived:?}");
    assert!(matches!(derived[0].constraints[0], ShaclConstraint::MinCount { min: 1, .. }));
    assert_eq!(derived[0].id, "derived:binding:nt-x:p-x:nullable");
}

#[test]
fn nullable_true_derives_nothing() {
    let o = ontology_with(true, vec![]);
    assert!(o.derive_nullable_rules().is_empty());
}

#[test]
fn nullable_derivation_suppressed_when_authored_min_count_present() {
    let mut o = ontology_with(false, vec![]);
    o.rules.push(authored("r-min", shape(), ShaclConstraint::MinCount { target: ConstraintTarget::Inherit, min: 2 }));
    assert!(o.derive_nullable_rules().is_empty());
}

#[test]
fn implicit_rules_set_unions_binding_and_nullable() {
    let o = ontology_with(false, vec![value_set("vs-1", BindingStrength::Required)]);
    let all = o.derive_implicit_rules();
    assert_eq!(all.len(), 2);
    assert!(all[0].id.ends_with("value_set:vs-1"));
    assert!(all[1].id.ends_with(":nullable"));
    let sigs = o.derived_constraint_signatures();
    assert_eq!(sigs.len(), 2);
    assert!(sigs.contains(&("nt-x".to_string(), "p-x".to_string(), ConstraintSignature::MinCount)));
}

fn ontology_with_two_properties(bindings_on_x: Vec<PropertyBinding>) -> OntologyIR {
    let mut o = ontology_with(true, bindings_on_x);
    o.node_types[0].properties.push(PropertyDef {
        id: "p-y".into(),
        name: "y".into(),
        nullable: true,
        ..Default::default()
    });
    o
}

fn shape_on(property_id: &str) -> RuleKind {
    RuleKind::PropertyShape { target_node_type_id: "nt-x".into(), target_property_id: property_id.into() }
}

#[test]
fn derived_rule_dedups_against_authored_constraint_with_explicit_property_target_override() {
    let mut o = ontology_with_two_properties(vec![value_set("vs-status", BindingStrength::Required)]);
    o.rules.push(authored(
        "r-with-explicit-target",
        shape_on("p-y"),
        ShaclConstraint::InValueSet {
            target: ConstraintTarget::Property { node_type_id: "nt-x".into(), property_id: "p-x".into() },
            value_set_id: "vs-status".into(),
        },
    ));
    let derived = o.derive_binding_rules();
    assert!(derived.is_empty(), "derivation must defer to the authored constraint's effective target on p-x: {derived:?}");
}

#[test]
fn derived_rule_kept_when_authored_constraint_targets_unrelated_property() {
    let mut o = ontology_with_two_properties(vec![value_set("vs-status", BindingStrength::Required)]);
    o.rules.push(authored(
        "r-on-p-y",
        shape_on("p-y"),
        ShaclConstraint::InValueSet {
            target: ConstraintTarget::Property { node_type_id: "nt-x".into(), property_id: "p-y".into() },
            value_set_id: "vs-status".into(),
        },
    ));
    let derived = o.derive_binding_rules();
    assert_eq!(derived.len(), 1);
}

#[test]
fn concept_binding_yields_no_derived_rule() {
    let mut ontology = ontology_with(true, vec![]);
    let mut term = ox_ontology::glossary::GlossaryTermDef {
        id: "gt-customer-status".to_string(),
        term: Bilingual { en: "CustomerStatus".to_string(), ko: String::new() },
        display_name: Bilingual::default(),
        description: Bilingual::default(),
        examples: Vec::new(),
        category: None,
        aliases: Vec::new(),
        related_terms: Vec::new(),
        governance: ox_ontology::glossary::TermGovernance::default(),
        valid_from: None,
        valid_to: None,
        lifecycle: ox_ontology::glossary::TermLifecycle::default(),
        concept_id: None,
        term_pos: Default::default(),
    };
    term.concept_id = Some("c-customer-status".to_string());
    ontology.registries.glossary_terms.push(term);
    ontology.registries.concepts.push(ox_ontology::concept::ConceptDef {
        id: "c-customer-status".to_string(),
        canonical_term_id: "gt-customer-status".to_string(),
        alias_term_ids: Vec::new(),
        broader: None,
        description: Bilingual::default(),
        examples: Vec::new(),
        category: None,
        realisation: None,
        lifecycle: ox_ontology::glossary::TermLifecycle::default(),
        replaced_by: None,
        valid_from: None,
        valid_to: None,
        governance: ox_ontology::concept::ConceptGovernance::default(),
    });
    ontology.node_types[0].properties[0].bindings.push(PropertyBinding::concept("c-customer-status".to_string()));
    let derived = ontology.derive_binding_rules();
    assert!(derived.is_empty(), "{derived:?}");
}
