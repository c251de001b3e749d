use ox_ontology::concept::{ConceptDef, ConceptGovernance};
use ox_ontology::glossary::{TermLifecycle, TermRealisation};
use ox_ontology::rule::Bilingual;

fn concept(id: &str, canonical: &str, aliases: &[&str], realisation: Option<TermRealisation>) -> ConceptDef {
    ConceptDef {
        id: id.to_string(),
        canonical_term_id: canonical.to_string(),
        alias_term_ids: aliases.iter().map(|a| a.to_string()).collect(),
        broader: None,
        description: Bilingual::default(),
        examples: Vec::new(),
        category: None,
        realisation,
        lifecycle: TermLifecycle::default(),
        replaced_by: None,
        valid_from: None,
        valid_to: None,
        governance: ConceptGovernance::default(),
    }
}

#[test]
fn lexicalization_iter_yields_canonical_then_aliases() {
    let c = concept("c-customer", "t-customer-en", &["t-customer-ko", "t-customer-ja"], None);
    let ids = c.lexicalization_term_ids();
    assert_eq!(ids.len(), 3);
    assert_eq!(ids[0], "t-customer-en");
    assert_eq!(ids[1], "t-customer-ko");
    assert_eq!(ids[2], "t-customer-ja");
}

#[test]
fn segment_id_short_circuits_for_segment_realisation() {
    let c = concept(
        "c-active-customer",
        "t-active-customer",
        &[],
        Some(TermRealisation::Segment { segment_id: "seg-active-customer".to_string() }),
    );
    assert_eq!(c.segment_id().map(|s| s.as_str()), Some("seg-active-customer"));
    assert!(c.function_id().is_none());
}

#[test]
fn function_realisation_exposes_function_only() {
    let c = concept(
        "c-ltv",
        "t-ltv",
        &[],
        Some(TermRealisation::Function { function_id: "fn-ltv".to_string() }),
    );
    assert_eq!(c.function_id().map(|s| s.as_str()), Some("fn-ltv"));
    assert!(c.segment_id().is_none());
}

#[test]
fn unrealised_concept_lexicalizes_only_its_canonical_term() {
    let c = concept("c-x", "t-x", &[], None);
    assert_eq!(c.lexicalization_term_ids(), vec!["t-x".to_string()]);
    assert!(c.segment_id().is_none());
    assert!(c.function_id().is_none());
}
