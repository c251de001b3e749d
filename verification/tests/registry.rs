use ox_ontology::registry::{
    ucum_seed, CodeSystemDef, CodeSystemKind, CodedValue, ConceptMapDef, ConceptMapping,
    Equivalence,
};
use ox_ontology::rule::Bilingual;

fn mapping(s: &str, t: &str, eq: Equivalence) -> ConceptMapping {
    ConceptMapping { source_code: s.into(), target_code: t.into(), equivalence: eq, comment: String::new() }
}

fn map_def(mappings: Vec<ConceptMapping>) -> ConceptMapDef {
    ConceptMapDef {
        id: "cm-1".into(),
        name: "Internal-Legacy".into(),
        display_name: String::new(),
        description: String::new(),
        version: "1".into(),
        source_system_id: "cs-internal".into(),
        target_system_id: "cs-legacy".into(),
        mappings,
    }
}

fn sys(id: &str, name: &str, kind: CodeSystemKind) -> CodeSystemDef {
    CodeSystemDef {
        id: id.into(),
        name: name.into(),
        display_name: Bilingual::default(),
        description: String::new(),
        uri: None,
        version: "1".into(),
        kind,
        hierarchical: false,
        codes: vec![],
        deprecated_at: None,
        replaced_by_id: None,
    }
}

fn code(id: &str, code: &str) -> CodedValue {
    CodedValue { id: id.into(), code: code.into(), ..Default::default() }
}

#[test]
fn translate_returns_equivalent_match() {
    let cm = map_def(vec![
        mapping("A", "ACTIVE", Equivalence::Equivalent),
        mapping("I", "INACTIVE", Equivalence::Equivalent),
    ]);
    let out = cm.translate("A");
    assert_eq!(out.len(), 1);
    assert_eq!(out[0].target_code, "ACTIVE");
    assert_eq!(out[0].equivalence, Equivalence::Equivalent);
}

#[test]
fn translate_returns_empty_for_missing_source() {
    let cm = map_def(vec![mapping("A", "ACTIVE", Equivalence::Equivalent)]);
    assert!(cm.translate("X").is_empty());
}

#[test]
fn translate_returns_multiple_matches_with_different_equivalences() {
    let cm = map_def(vec![
        mapping("S", "HOLD", Equivalence::Equivalent),
        mapping("S", "PENDING", Equivalence::NarrowerThanTarget),
    ]);
    let out = cm.translate("S");
    assert_eq!(out.len(), 2);
    assert!(out.iter().any(|t| t.target_code == "HOLD"));
    assert!(out.iter().any(|t| t.target_code == "PENDING"));
}

#[test]
fn translate_reverse_yields_source_codes() {
    let cm = map_def(vec![mapping("A", "ACTIVE", Equivalence::Equivalent)]);
    let reverse = cm.translate_reverse("ACTIVE");
    assert_eq!(reverse.len(), 1);
    assert_eq!(reverse[0].source_code, "ACTIVE");
    assert_eq!(reverse[0].target_code, "A");
}

#[test]
fn translate_reverse_ignores_directional_and_lossy_mappings() {
    let cm = map_def(vec![
        mapping("A", "ACTIVE", Equivalence::Equivalent),
        mapping("S", "PENDING", Equivalence::NarrowerThanTarget),
        mapping("B", "BROAD", Equivalence::BroaderThanTarget),
        mapping("R", "RELATED", Equivalence::Related),
        mapping("X", "LEGACY_X", Equivalence::Disjoint),
    ]);
    assert_eq!(cm.translate_reverse("ACTIVE").len(), 1);
    assert!(cm.translate_reverse("PENDING").is_empty());
    assert!(cm.translate_reverse("BROAD").is_empty());
    assert!(cm.translate_reverse("RELATED").is_empty());
    assert!(cm.translate_reverse("LEGACY_X").is_empty());
}

#[test]
fn disjoint_mapping_is_preserved_as_explicit_no_match() {
    let cm = map_def(vec![mapping("X", "LEGACY_X", Equivalence::Disjoint)]);
    let out = cm.translate("X");
    assert_eq!(out.len(), 1);
    assert_eq!(out[0].equivalence, Equivalence::Disjoint);
}

#[test]
fn try_inverse_swaps_systems_and_codes_when_all_equivalent() {
    let cm = map_def(vec![
        mapping("A", "ACTIVE", Equivalence::Equivalent),
        mapping("I", "INACTIVE", Equivalence::Equivalent),
    ]);
    let inv = cm.try_inverse().expect("all-equivalent map inverts");
    assert_eq!(inv.source_system_id, cm.target_system_id);
    assert_eq!(inv.target_system_id, cm.source_system_id);
    assert_eq!(inv.mappings.len(), 2);
    let active = inv.mappings.iter().find(|m| m.source_code == "ACTIVE").expect("ACTIVE side present");
    assert_eq!(active.target_code, "A");
    assert_eq!(active.equivalence, Equivalence::Equivalent);
}

#[test]
fn try_inverse_refuses_non_equivalent_entries() {
    let cm = map_def(vec![
        mapping("A", "ACTIVE", Equivalence::Equivalent),
        mapping("S", "PENDING", Equivalence::NarrowerThanTarget),
    ]);
    assert!(cm.try_inverse().is_none());
    let cm = map_def(vec![mapping("X", "LEGACY_X", Equivalence::Disjoint)]);
    assert!(cm.try_inverse().is_none());
    let cm = map_def(vec![mapping("X", "Y", Equivalence::Related)]);
    assert!(cm.try_inverse().is_none());
}

#[test]
fn try_inverse_round_trips_back_to_original() {
    let cm = map_def(vec![
        mapping("A", "ACTIVE", Equivalence::Equivalent),
        mapping("I", "INACTIVE", Equivalence::Equivalent),
    ]);
    let inv = cm.try_inverse().expect("all-equivalent");
    let back = inv.try_inverse().expect("inverse of inverse");
    assert_eq!(back, cm);
}

#[test]
fn reverse_lookup_matches_forward_lookup_of_inverse() {
    let cm = map_def(vec![
        mapping("A", "ACTIVE", Equivalence::Equivalent),
        mapping("B", "ACTIVE", Equivalence::Equivalent),
    ]);
    let inv = cm.try_inverse().unwrap();
    assert_eq!(cm.translate_reverse("ACTIVE"), inv.translate("ACTIVE"));
}

#[test]
fn find_code_returns_the_matching_entry() {
    let mut s = sys("cs-1", "OrderStatus", CodeSystemKind::Internal);
    s.codes.push(code("cv-a", "A"));
    s.codes.push(code("cv-c", "C"));
    assert_eq!(s.find_code("A").unwrap().id, "cv-a");
    assert!(s.find_code("X").is_none());
}

#[test]
fn is_active_at_respects_deprecation_and_validity_window() {
    let t0 = 1_704_067_200_i64;
    let t_mid = 1_717_200_000_i64;
    let t_end = 1_735_603_200_i64;
    let mut cv = code("cv-1", "X");
    cv.valid_from = Some(t0);
    cv.valid_to = Some(t_end);
    assert!(cv.is_active_at(t_mid));
    assert!(!cv.is_active_at(t0 - 86_400));
    assert!(!cv.is_active_at(t_end));

    cv.deprecated_at = Some(t_mid);
    assert!(!cv.is_active_at(t_mid));
    assert!(cv.is_active_at(t0 + 86_400));
}

#[test]
fn external_system_carries_authoritative_source_ref() {
    let s = sys(
        "cs-ucum",
        "UCUM",
        CodeSystemKind::External { source_ref: "http://unitsofmeasure.org".into() },
    );
    match s.kind {
        CodeSystemKind::External { ref source_ref } => {
            assert_eq!(source_ref, "http://unitsofmeasure.org");
        }
        _ => panic!("expected External"),
    }
}

#[test]
fn alias_matches_is_case_insensitive_and_checks_code_plus_aliases() {
    let mut s = sys("cs-1", "OrderStatus", CodeSystemKind::Internal);
    let mut cv = code("cv-a", "A");
    cv.aliases = vec!["ACT".into(), "Active".into()];
    s.codes.push(cv);
    assert_eq!(s.alias_matches("a").unwrap().id, "cv-a");
    assert_eq!(s.alias_matches(" ACT ").unwrap().id, "cv-a");
    assert_eq!(s.alias_matches("active").unwrap().id, "cv-a");
    assert!(s.alias_matches("xyz").is_none());
}

#[test]
fn ucum_seed_carries_canonical_subset_and_external_source_ref() {
    let sys = ucum_seed("cs-ucum".to_string(), "2024".to_string());
    assert_eq!(sys.name, "UCUM");
    assert!(!sys.hierarchical);
    match sys.kind {
        CodeSystemKind::External { ref source_ref } => {
            assert_eq!(source_ref, "http://unitsofmeasure.org");
        }
        _ => panic!("UCUM seed must be External"),
    }
    for expected in ["kg", "m", "s", "Hz", "L", "KRW", "USD"] {
        assert!(sys.find_code(expected).is_some(), "UCUM seed missing '{expected}'");
    }
    let kg = sys.find_code("kg").unwrap();
    assert!(!kg.display.en.is_empty());
    assert_eq!(kg.id, "ucum-kg");
    assert_eq!(sys.codes.len(), 19);
}

#[test]
fn alias_matches_trims_unicode_white_space() {
    let mut s = sys("cs-1", "OrderStatus", CodeSystemKind::Internal);
    s.codes.push(code("cv-a", "A"));
    assert_eq!(s.alias_matches("\u{3000}a\u{00A0}\n").unwrap().id, "cv-a");
    assert!(s.alias_matches("\u{200B}a").is_none());
}
