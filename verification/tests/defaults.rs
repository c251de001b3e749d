use ox_ontology::glossary::{TermGovernance, TermLifecycle, TermOrigin};
use ox_ontology::action::IdempotencyPolicy;
use ox_ontology::binding::BindingStrength;
use ox_ontology::enrichment::RefreshPolicy;
use ox_ontology::function::FunctionPurity;

#[test]
fn default_idempotency_is_none() {
    assert!(matches!(IdempotencyPolicy::default(), IdempotencyPolicy::Unkeyed));
}

#[test]
fn keyed_helper_clamps_negative_durations_to_zero() {
    let p = IdempotencyPolicy::keyed(-30);
    assert!(matches!(p, IdempotencyPolicy::Keyed { window_seconds: 0 }));
    assert!(matches!(IdempotencyPolicy::keyed(90), IdempotencyPolicy::Keyed { window_seconds: 90 }));
}

#[test]
fn default_strength_is_preferred() {
    assert_eq!(BindingStrength::default(), BindingStrength::Preferred);
}

#[test]
fn default_refresh_is_on_access() {
    assert!(matches!(RefreshPolicy::default(), RefreshPolicy::OnAccess));
}

#[test]
fn cached_helper_clamps_negative_ttl() {
    assert_eq!(RefreshPolicy::cached(-5), RefreshPolicy::Cached { ttl_seconds: 0 });
    assert_eq!(RefreshPolicy::cached(60), RefreshPolicy::Cached { ttl_seconds: 60 });
}

#[test]
fn pure_is_the_default_purity() {
    assert_eq!(FunctionPurity::default(), FunctionPurity::Pure);
}

#[test]
fn cached_helper_clamps_negatives_to_zero() {
    let r = RefreshPolicy::cached(-5);
    assert!(matches!(r, RefreshPolicy::Cached { ttl_seconds: 0 }));
}

#[test]
fn approval_defaults_to_automatic() {
    assert_eq!(ox_ontology::action::ApprovalPolicy::default(), ox_ontology::action::ApprovalPolicy::Automatic);
}

#[test]
fn term_lifecycle_and_governance_defaults() {
    assert_eq!(TermLifecycle::default(), TermLifecycle::Active);
    let g = TermGovernance::default();
    assert_eq!(g.origin, TermOrigin::Manual);
    assert!(g.created_by.is_none());
    assert!(g.change_notes.is_empty());
}
