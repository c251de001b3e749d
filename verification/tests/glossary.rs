use ox_ontology::glossary::{
    GlossaryTermDef, TaxonomyNode, TermGovernance, TermLifecycle, TermOrigin, TermPos,
};
use ox_ontology::rule::Bilingual;

fn leaf(id: &str) -> TaxonomyNode {
    TaxonomyNode { term_id: id.to_string(), children: vec![] }
}

#[test]
fn taxonomy_walk_visits_every_term_in_pre_order() {
    let root = TaxonomyNode {
        term_id: "t-root".to_string(),
        children: vec![
            TaxonomyNode { term_id: "t-a".to_string(), children: vec![leaf("t-a-1")] },
            leaf("t-b"),
        ],
    };
    let seen = root.walk();
    assert_eq!(seen, vec!["t-root", "t-a", "t-a-1", "t-b"]);
    assert_eq!(root.size(), 4);
}

#[test]
fn single_node_tree_has_size_one() {
    let root = leaf("only");
    assert_eq!(root.walk(), vec!["only"]);
    assert_eq!(root.size(), 1);
}

#[test]
fn glossary_defaults() {
    assert_eq!(TermPos::default(), TermPos::Auto);
    assert_eq!(TermOrigin::default(), TermOrigin::Manual);
}

fn text(en: &str) -> Bilingual {
    Bilingual { en: en.to_string(), ko: String::new() }
}

fn term(id: &str, label: &str) -> GlossaryTermDef {
    GlossaryTermDef {
        id: id.to_string(),
        term: text(label),
        display_name: Bilingual::default(),
        description: Bilingual::default(),
        examples: Vec::new(),
        category: None,
        aliases: Vec::new(),
        related_terms: Vec::new(),
        governance: TermGovernance::default(),
        valid_from: None,
        valid_to: None,
        lifecycle: TermLifecycle::default(),
        concept_id: None,
        term_pos: Default::default(),
    }
}

#[test]
fn matches_text_is_case_insensitive_and_trims() {
    let mut t = term("t-1", "Customer");
    t.aliases.push(text("Client"));
    assert!(t.matches_text("customer"));
    assert!(t.matches_text("  CUSTOMER "));
    assert!(t.matches_text("client"));
    assert!(!t.matches_text("vendor"));
}

#[test]
fn matches_text_finds_translated_locale_label() {
    let mut t = term("t-1", "Customer");
    t.term = Bilingual { en: "Customer".to_string(), ko: "고객".to_string() };
    assert!(t.matches_text("고객"));
    assert!(t.matches_text("customer"));
}

#[test]
fn lifecycle_default_is_active() {
    let t = term("t-1", "Customer");
    assert!(t.is_active());
    assert!(t.replaced_by().is_none());
}

#[test]
fn deprecated_term_exposes_replacement() {
    let mut t = term("t-old", "Client");
    t.lifecycle = TermLifecycle::Deprecated {
        replaced_by: Some("t-new".to_string()),
        deprecated_at: 1_748_736_000,
    };
    assert!(!t.is_active());
    assert_eq!(t.replaced_by().unwrap().as_str(), "t-new");
}

#[test]
fn valid_at_respects_open_and_closed_bounds() {
    let mut t = term("t-1", "Customer");
    // 2024-01-01, 2025-06-01 and 2026-12-01 at midnight UTC.
    let earlier: i64 = 1_704_067_200;
    let mid: i64 = 1_748_736_000;
    let later: i64 = 1_796_083_200;
    assert!(t.is_valid_at(mid));
    t.valid_from = Some(mid);
    assert!(!t.is_valid_at(earlier));
    assert!(t.is_valid_at(mid));
    assert!(t.is_valid_at(later));
    t.valid_from = None;
    t.valid_to = Some(mid);
    assert!(t.is_valid_at(earlier));
    assert!(!t.is_valid_at(mid));
    assert!(!t.is_valid_at(later));
}

#[test]
fn blank_candidate_matches_nothing() {
    let t = term("t-1", "Customer");
    assert!(!t.matches_text(""));
    assert!(!t.matches_text("   "));
}

#[test]
fn display_name_and_translated_alias_match() {
    let mut t = term("t-1", "Customer");
    t.display_name = text("Active Paying Customer");
    t.aliases.push(Bilingual { en: "Buyer".to_string(), ko: "구매자".to_string() });
    assert!(t.matches_text("active paying customer"));
    assert!(t.matches_text("구매자"));
    assert!(!t.matches_text("paying"));
}

#[test]
fn retired_term_is_neither_active_nor_replaced() {
    let mut t = term("t-1", "Customer");
    t.lifecycle = TermLifecycle::Retired { retired_at: 1_704_067_200 };
    assert!(!t.is_active());
    assert!(t.replaced_by().is_none());
}
