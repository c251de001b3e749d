use ox_ontology::agent_view::present;
use ox_ontology::binding_suggestions::{
    alias_match, bigrams, description_overlap, locate_property, name_evidence, normalise, tokenise, NameEvidence,
    PropertyOwnerRef, PropertySignals, TermSignals,
};
use ox_ontology::binding::PropertyBinding;
use ox_ontology::glossary::{GlossaryTermDef, TermGovernance, TermLifecycle};
use ox_ontology::ir::{NodeTypeDef, OntologyIR, PropertyDef};
use ox_ontology::rule::Bilingual;

#[test]
fn normalise_lowers_ascii_and_trims_separators() {
    assert_eq!(normalise("Customer Tier!"), "customer_tier");
    assert_eq!(normalise("__VIP__grade__"), "vip__grade");
    assert_eq!(normalise("!!!"), "");
    assert_eq!(normalise("\u{b4f1}\u{ae09}"), "");
}

#[test]
fn tokenise_splits_on_non_alphanumeric_and_drops_single_bytes() {
    assert_eq!(tokenise("The VIP grade, a-b c"), vec!["the", "vip", "grade"]);
    assert_eq!(tokenise("\u{ace0}\u{ac1d} \u{b4f1}\u{ae09} x"), vec!["\u{ace0}\u{ac1d}", "\u{b4f1}\u{ae09}"]);
    assert_eq!(tokenise("\u{e9}"), vec!["\u{e9}"]);
    assert!(tokenise("").is_empty());
}

#[test]
fn bigrams_are_neighbouring_pairs() {
    assert_eq!(bigrams("abc"), vec![('a', 'b'), ('b', 'c')]);
    assert!(bigrams("a").is_empty());
    assert!(bigrams("").is_empty());
}

#[test]
fn present_drops_empty_text() {
    assert_eq!(present(""), None);
    assert_eq!(present("x"), Some("x".to_string()));
}


fn text(en: &str) -> Bilingual {
    Bilingual { en: en.to_string(), ko: String::new() }
}

fn property(name: &str, description: &str) -> PropertyDef {
    PropertyDef {
        id: format!("p-{name}"),
        name: name.to_string(),
        nullable: true,
        description: description.to_string(),
        ..Default::default()
    }
}

fn term(id: &str, name: &str, aliases: &[&str], description: &str) -> GlossaryTermDef {
    GlossaryTermDef {
        id: id.to_string(),
        term: text(name),
        display_name: Bilingual::default(),
        description: text(description),
        examples: Vec::new(),
        category: None,
        aliases: aliases.iter().map(|a| text(a)).collect(),
        related_terms: Vec::new(),
        governance: TermGovernance::default(),
        valid_from: None,
        valid_to: None,
        lifecycle: TermLifecycle::default(),
        concept_id: None,
        term_pos: Default::default(),
    }
}

fn evidence(t: &GlossaryTermDef, p: &PropertyDef) -> NameEvidence {
    name_evidence(&TermSignals::from_term(t), t, &PropertySignals::from_property(p))
}

#[test]
fn identical_names_give_canonical_evidence() {
    let t = term("t1", "customer_grade", &[], "");
    assert_eq!(evidence(&t, &property("customer_grade", "")), NameEvidence::Canonical);
}

#[test]
fn alias_evidence_when_canonical_names_differ() {
    let t = term("t1", "VIP Grade", &["vip_tier"], "");
    let ts = TermSignals::from_term(&t);
    assert_eq!(ts.canonical, "vip_grade");
    assert_eq!(ts.aliases, vec!["vip_tier".to_string()]);
    assert_eq!(
        evidence(&t, &property("vip_tier", "")),
        NameEvidence::Alias { matched: "vip_tier".to_string() }
    );
}

#[test]
fn description_overlap_counts_distinct_shared_tokens() {
    let t = term("t1", "marketing_segment", &[], "Marketing segment used for campaign eligibility");
    let p = property("segment_bucket", "Marketing segment rollup for campaign eligibility");
    let ts = TermSignals::from_term(&t);
    let ps = PropertySignals::from_property(&p);
    assert_eq!(ts.description_tokens, vec!["campaign", "eligibility", "for", "marketing", "segment", "used"]);
    assert_eq!(description_overlap(&ts, &ps), (5, 6));
}

#[test]
fn business_context_counts_towards_overlap() {
    let t = term("t1", "tier", &[], "loyalty tier");
    let mut p = property("bucket", "");
    p.business_context = text("Loyalty programme level");
    let ps = PropertySignals::from_property(&p);
    assert_eq!(ps.business_context_tokens, vec!["level", "loyalty", "programme"]);
    assert_eq!(description_overlap(&TermSignals::from_term(&t), &ps), (1, 2));
}

#[test]
fn unrelated_names_only_share_few_bigrams() {
    let t = term("t1", "weather", &[], "atmospheric conditions");
    let p = property("customer_grade", "");
    match evidence(&t, &p) {
        NameEvidence::Bigrams { shared, term_bigrams, property_bigrams } => {
            assert_eq!(term_bigrams, 6);
            assert_eq!(property_bigrams, 13);
            assert!(shared <= 1);
        }
        other => panic!("unexpected evidence {other:?}"),
    }
    let ts = TermSignals::from_term(&t);
    assert_eq!(description_overlap(&ts, &PropertySignals::from_property(&p)), (0, 2));
}

#[test]
fn typo_shares_most_bigrams() {
    let t = term("t1", "customr_grade", &[], "");
    match evidence(&t, &property("customer_grade", "")) {
        NameEvidence::Bigrams { shared, term_bigrams, property_bigrams } => {
            assert_eq!((term_bigrams, property_bigrams), (12, 13));
            assert_eq!(shared, 11);
        }
        other => panic!("unexpected evidence {other:?}"),
    }
}

#[test]
fn property_alias_matching_term_name_is_found() {
    let t = term("t1", "Tier", &[], "");
    let mut p = property("level_code", "");
    p.aliases.push(text("tier"));
    let ts = TermSignals::from_term(&t);
    let ps = PropertySignals::from_property(&p);
    assert_eq!(ps.aliases, vec!["tier".to_string()]);
    assert_eq!(alias_match(&ts, &t, &ps), Some("tier".to_string()));
}

#[test]
fn term_aliases_are_normalised_sorted_and_distinct() {
    let mut t = term("t1", "Customer", &["Client", "client", "  ", "Buyer"], "");
    t.term.ko = "고객".to_string();
    t.display_name = text("Customer");
    let ts = TermSignals::from_term(&t);
    assert_eq!(ts.canonical, "customer");
    assert_eq!(ts.aliases, vec!["buyer".to_string(), "client".to_string()]);
}

#[test]
fn glossary_binding_is_found_on_the_property() {
    let mut p = property("customer_grade", "");
    assert!(p.glossary_term_id().is_none());
    p.bindings.push(PropertyBinding::Glossary { id: "existing".to_string(), valid_from: None, valid_to: None });
    assert_eq!(p.glossary_term_id().map(|s| s.as_str()), Some("existing"));
}

#[test]
fn locate_property_finds_by_owner_and_id() {
    let ir = OntologyIR {
        id: "ont".to_string(),
        name: "Test".to_string(),
        node_types: vec![NodeTypeDef {
            id: "n-Customer".to_string(),
            label: "Customer".to_string(),
            properties: vec![property("customer_grade", "")],
            ..Default::default()
        }],
        ..Default::default()
    };
    let owner = PropertyOwnerRef::Node { node_type: "n-Customer".to_string(), label: "Customer".to_string() };
    assert_eq!(locate_property(&ir, &owner, "p-customer_grade").map(|p| p.name.as_str()), Some("customer_grade"));
    assert!(locate_property(&ir, &owner, "p-missing").is_none());
    let edge = PropertyOwnerRef::Edge { edge_type: "n-Customer".to_string(), label: "X".to_string() };
    assert!(locate_property(&ir, &edge, "p-customer_grade").is_none());
}
