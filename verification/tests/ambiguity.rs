use ox_ontology::ambiguity::{
    AmbiguityContext, AmbiguityKind, AmbiguityMapping, AmbiguityResolution, RepoHint,
    ValueMapEntry,
};
use ox_ontology::design_gate::ColumnRef;

fn example_column() -> ColumnRef {
    ColumnRef::new("orders", "status")
}

#[test]
fn fresh_context_has_defaults_and_unique_id() {
    let a = AmbiguityContext::new(
        "pg".into(),
        example_column(),
        AmbiguityKind::NumericCode,
        vec!["1".into(), "2".into()],
        "What does status mean?".into(),
        "hash-1".into(),
    );
    let b = AmbiguityContext::new(
        "pg".into(),
        example_column(),
        AmbiguityKind::NumericCode,
        vec![],
        "q".into(),
        "hash-1".into(),
    );
    assert_ne!(a.id, b.id);
    assert_eq!(a.distinct_estimate, None);
    assert!(!a.nullable);
    assert!(a.repo_hint.is_none());
    assert!(a.detected_at > 0);
}

#[test]
fn builders_set_their_field() {
    let c = AmbiguityContext::new_with(
        "amb-1".into(),
        100,
        "pg".into(),
        example_column(),
        AmbiguityKind::OpaqueShortCode,
        vec![],
        "q".into(),
        "h".into(),
    )
    .with_distinct_estimate(3)
    .with_nullable(true)
    .with_repo_hint(RepoHint { suggested_values: "N=New".into(), source_file: "order.rb:42".into() });
    assert_eq!(c.id, "amb-1");
    assert_eq!(c.distinct_estimate, Some(3));
    assert!(c.nullable);
    assert_eq!(c.repo_hint.unwrap().source_file, "order.rb:42");
}

#[test]
fn resolution_starts_unrevoked_and_unattributed() {
    let r = AmbiguityResolution::new(
        "amb-1".into(),
        "h".into(),
        AmbiguityMapping::ValueMap {
            entries: vec![ValueMapEntry { value: "1".into(), display: "Active".into(), definition: None }],
        },
    );
    assert_eq!(r.context_id, "amb-1");
    assert!(r.resolved_by_user_id.is_none());
    assert!(r.supersedes.is_none());
    assert!(r.revoked_at.is_none());
    assert!(r.id.len() == 36);
}
