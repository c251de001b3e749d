use ox_ontology::change_routing::{
    decide_edit_routing, ApprovalRouting, ApprovalSkipPredicate, ChangeType, EditContext,
    EditRoutingDecision, RiskLevel, RoleRef, ScopeKind, ScopeValue,
};

fn ctx_default() -> EditContext {
    EditContext::default()
}

#[test]
fn auto_approve_applies_without_notification() {
    let decision = decide_edit_routing(&ApprovalRouting::AutoApprove, &ctx_default());
    assert_eq!(decision, EditRoutingDecision::Apply { notify_roles: vec![] });
}

#[test]
fn auto_approve_with_notification_surfaces_roles() {
    let routing = ApprovalRouting::AutoApproveWithNotification {
        notify_roles: vec![RoleRef::DataSteward],
    };
    assert_eq!(
        decide_edit_routing(&routing, &ctx_default()),
        EditRoutingDecision::Apply { notify_roles: vec![RoleRef::DataSteward] }
    );
}

#[test]
fn approval_required_always_queues() {
    assert_eq!(
        decide_edit_routing(&ApprovalRouting::ApprovalRequired, &ctx_default()),
        EditRoutingDecision::Queue
    );
}

#[test]
fn approval_required_unless_admin_role_skips() {
    let routing = ApprovalRouting::ApprovalRequiredUnless {
        skip_predicates: vec![ApprovalSkipPredicate::AuthorHasRole { role: RoleRef::DataSteward }],
    };
    let ctx = EditContext { author_role: Some(RoleRef::Admin), ..Default::default() };
    assert!(matches!(decide_edit_routing(&routing, &ctx), EditRoutingDecision::Apply { .. }));
}

#[test]
fn approval_required_unless_analyst_role_queues() {
    let routing = ApprovalRouting::ApprovalRequiredUnless {
        skip_predicates: vec![ApprovalSkipPredicate::AuthorHasRole { role: RoleRef::DataSteward }],
    };
    let ctx = EditContext { author_role: Some(RoleRef::Analyst), ..Default::default() };
    assert_eq!(decide_edit_routing(&routing, &ctx), EditRoutingDecision::Queue);
}

fn code_count_ctx(value: u32) -> EditContext {
    EditContext {
        scopes: vec![ScopeValue { kind: ScopeKind::CodeCount, value }],
        ..Default::default()
    }
}

fn scope_below_routing(threshold: u32) -> ApprovalRouting {
    ApprovalRouting::ApprovalRequiredUnless {
        skip_predicates: vec![ApprovalSkipPredicate::ChangeScopeBelow {
            scope: ScopeKind::CodeCount,
            threshold,
        }],
    }
}

#[test]
fn scope_below_threshold_skips_queue() {
    assert!(matches!(
        decide_edit_routing(&scope_below_routing(5), &code_count_ctx(3)),
        EditRoutingDecision::Apply { .. }
    ));
}

#[test]
fn scope_at_threshold_does_not_skip() {
    assert_eq!(
        decide_edit_routing(&scope_below_routing(5), &code_count_ctx(5)),
        EditRoutingDecision::Queue,
    );
}

#[test]
fn scope_missing_kind_does_not_skip() {
    let ctx = EditContext::default();
    assert_eq!(decide_edit_routing(&scope_below_routing(5), &ctx), EditRoutingDecision::Queue);
}

#[test]
fn all_change_types_have_distinct_variants() {
    let all = ChangeType::all();
    let mut seen: std::collections::HashSet<ChangeType> = std::collections::HashSet::new();
    for c in all.iter() {
        assert!(seen.insert(*c), "duplicate variant in all(): {c:?}");
    }
    assert_eq!(all.len(), 14);
}

#[test]
fn every_change_type_has_a_default_routing() {
    for c in ChangeType::all() {
        let _ = c.default_routing();
        let _ = c.default_risk_level();
    }
}

#[test]
fn rollback_defaults_to_plain_auto_approve() {
    assert_eq!(ChangeType::OntologyVersionRollback.default_routing(), ApprovalRouting::AutoApprove);
}

fn role_ctx(role: RoleRef) -> EditContext {
    EditContext { author_role: Some(role), scopes: Vec::new() }
}

#[test]
fn rule_create_data_steward_applies() {
    assert!(matches!(
        decide_edit_routing(&ChangeType::RuleCreate.default_routing(), &role_ctx(RoleRef::DataSteward)),
        EditRoutingDecision::Apply { .. }
    ));
}

#[test]
fn rule_create_analyst_queues() {
    assert_eq!(
        decide_edit_routing(&ChangeType::RuleCreate.default_routing(), &role_ctx(RoleRef::Analyst)),
        EditRoutingDecision::Queue,
    );
}

#[test]
fn rule_modify_gates_on_admin_role() {
    assert_eq!(
        decide_edit_routing(&ChangeType::RuleModify.default_routing(), &role_ctx(RoleRef::DataSteward)),
        EditRoutingDecision::Queue,
    );
    assert_eq!(
        decide_edit_routing(&ChangeType::RuleModify.default_routing(), &role_ctx(RoleRef::Analyst)),
        EditRoutingDecision::Queue,
    );
    assert!(matches!(
        decide_edit_routing(&ChangeType::RuleModify.default_routing(), &role_ctx(RoleRef::Admin)),
        EditRoutingDecision::Apply { .. }
    ));
}

#[test]
fn rule_delete_always_queues() {
    for role in [RoleRef::Admin, RoleRef::DataSteward, RoleRef::Analyst] {
        assert_eq!(
            decide_edit_routing(&ChangeType::RuleDelete.default_routing(), &role_ctx(role)),
            EditRoutingDecision::Queue,
            "RuleDelete must queue for role={role:?}",
        );
    }
}

#[test]
fn table_merge_defaults_to_approval_required() {
    assert_eq!(ChangeType::TableMerge.default_routing(), ApprovalRouting::ApprovalRequired);
}

#[test]
fn data_steward_skip_also_lets_admin_through() {
    // A rule that skips for a role skips for every role that outranks it.
    for change in ChangeType::all() {
        let routing = change.default_routing();
        let steward = decide_edit_routing(&routing, &role_ctx(RoleRef::DataSteward));
        let admin = decide_edit_routing(&routing, &role_ctx(RoleRef::Admin));
        if matches!(steward, EditRoutingDecision::Apply { .. }) {
            assert!(matches!(admin, EditRoutingDecision::Apply { .. }), "{change:?}");
        }
    }
}

#[test]
fn rule_delete_is_high_risk_and_rollback_medium() {
    assert_eq!(ChangeType::RuleDelete.default_risk_level(), RiskLevel::High);
    assert_eq!(ChangeType::OntologyVersionRollback.default_risk_level(), RiskLevel::Medium);
    assert_eq!(ChangeType::CodedValueCreate.default_risk_level(), RiskLevel::Low);
}

#[test]
fn below_threshold_scope_applies_with_no_notification() {
    assert_eq!(
        decide_edit_routing(&scope_below_routing(5), &code_count_ctx(0)),
        EditRoutingDecision::Apply { notify_roles: vec![] }
    );
}

#[test]
fn a_higher_role_is_applied_where_a_lower_one_is() {
    let routing = ApprovalRouting::ApprovalRequiredUnless {
        skip_predicates: vec![ApprovalSkipPredicate::AuthorHasRole { role: RoleRef::DataSteward }],
    };
    let with_role = |role| EditContext { author_role: Some(role), scopes: vec![] };
    assert_eq!(decide_edit_routing(&routing, &with_role(RoleRef::Analyst)), EditRoutingDecision::Queue);
    assert_eq!(
        decide_edit_routing(&routing, &with_role(RoleRef::DataSteward)),
        EditRoutingDecision::Apply { notify_roles: vec![] }
    );
    assert_eq!(
        decide_edit_routing(&routing, &with_role(RoleRef::Admin)),
        EditRoutingDecision::Apply { notify_roles: vec![] }
    );
}
