use ox_ontology::binding::{BindingStrength, PropertyBinding};

fn vs_binding() -> PropertyBinding {
    PropertyBinding::ValueSet {
        id: "vs-x".to_string(),
        strength: BindingStrength::default(),
        concept_map_id: None,
        valid_from: None,
        valid_to: None,
    }
}

fn now() -> i64 {
    chrono::Utc::now().timestamp()
}

#[test]
fn covers_includes_open_window() {
    assert!(vs_binding().covers(now()));
}

#[test]
fn covers_respects_valid_from() {
    let now = now();
    let b = PropertyBinding::ValueSet {
        id: "vs-x".to_string(),
        strength: BindingStrength::default(),
        concept_map_id: None,
        valid_from: Some(now),
        valid_to: None,
    };
    assert!(b.covers(now));
    assert!(!b.covers(now - 1));
    assert!(b.covers(now + 1));
}

#[test]
fn covers_respects_valid_to_exclusive() {
    let now = now();
    let b = PropertyBinding::ValueSet {
        id: "vs-x".to_string(),
        strength: BindingStrength::default(),
        concept_map_id: None,
        valid_from: None,
        valid_to: Some(now),
    };
    assert!(!b.covers(now));
    assert!(b.covers(now - 1));
    assert!(!b.covers(now + 1));
}
