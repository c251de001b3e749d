use ox_ontology::design_gate::{
    design_allowed, evaluate_design_gates, unmet_blocking_gates, AnalysisCompleteness,
    ColumnClarification, ColumnRef, DesignOptions, GateId, GateStatus, LargeSchemaWarning,
    SourceAnalysisReport, LARGE_SCHEMA_GATE_THRESHOLD,
};

fn empty_report() -> SourceAnalysisReport {
    SourceAnalysisReport::default()
}

fn ambiguous(table: &str, column: &str) -> ColumnRef {
    ColumnRef::new(table, column)
}

#[test]
fn empty_report_emits_no_gates() {
    let gates = evaluate_design_gates(&empty_report(), &Default::default());
    assert!(gates.is_empty());
    assert!(design_allowed(&gates));
}

#[test]
fn unresolved_clarifications_block_design() {
    let mut report = empty_report();
    report.ambiguous_columns = vec![ambiguous("orders", "status")];
    let gates = evaluate_design_gates(&report, &Default::default());
    assert_eq!(gates.len(), 1);
    assert_eq!(gates[0].id, GateId::ColumnClarificationsResolved);
    assert_eq!(gates[0].status, GateStatus::Unmet);
    assert!(!design_allowed(&gates));
    assert_eq!(gates[0].param("pending_count").map(String::as_str), Some("1"));
    assert_eq!(gates[0].param("total_count").map(String::as_str), Some("1"));
}

#[test]
fn matched_clarifications_unblock_design() {
    let mut report = empty_report();
    report.ambiguous_columns = vec![ambiguous("orders", "status")];
    let mut options = DesignOptions::default();
    options.column_clarifications.push(ColumnClarification {
        table: "orders".to_string(),
        column: "status".to_string(),
        hint: "1=active, 2=cancelled".to_string(),
    });
    let gates = evaluate_design_gates(&report, &options);
    assert_eq!(gates[0].status, GateStatus::Met);
    assert!(design_allowed(&gates));
    assert_eq!(gates[0].param("pending_count").map(String::as_str), Some("0"));
}

#[test]
fn partial_analysis_requires_acknowledgement() {
    let mut report = empty_report();
    report.analysis_completeness = AnalysisCompleteness::Partial;
    let gates = evaluate_design_gates(&report, &Default::default());
    let gate = gates
        .iter()
        .find(|g| g.id == GateId::PartialAnalysisAcknowledged)
        .expect("partial gate must surface for partial reports");
    assert_eq!(gate.status, GateStatus::Unmet);
    assert!(gate.blocks_design);
}

#[test]
fn partial_analysis_acknowledged_meets_gate() {
    let mut report = empty_report();
    report.analysis_completeness = AnalysisCompleteness::Partial;
    let options = DesignOptions { partial_analysis_acknowledged: true, ..DesignOptions::default() };
    let gates = evaluate_design_gates(&report, &options);
    assert_eq!(
        gates.iter().find(|g| g.id == GateId::PartialAnalysisAcknowledged).map(|g| g.status),
        Some(GateStatus::Met)
    );
}

#[test]
fn large_schema_gate_only_fires_above_threshold() {
    let mut report = empty_report();
    report.large_schema_warning =
        Some(LargeSchemaWarning { table_count: 50, recommended_max: LARGE_SCHEMA_GATE_THRESHOLD });
    let gates = evaluate_design_gates(&report, &Default::default());
    assert!(
        gates.iter().find(|g| g.id == GateId::LargeSchemaAcknowledged).is_none(),
        "below threshold => no gate"
    );

    report.large_schema_warning = Some(LargeSchemaWarning {
        table_count: LARGE_SCHEMA_GATE_THRESHOLD + 5,
        recommended_max: LARGE_SCHEMA_GATE_THRESHOLD,
    });
    let gates = evaluate_design_gates(&report, &Default::default());
    let gate = gates
        .iter()
        .find(|g| g.id == GateId::LargeSchemaAcknowledged)
        .expect("at-or-above threshold => gate");
    assert_eq!(gate.status, GateStatus::Unmet);
    assert!(gate.blocks_design);
    assert_eq!(gate.param("table_count").map(String::as_str), Some("105"));
    assert_eq!(gate.param("threshold").map(String::as_str), Some("100"));
}

#[test]
fn large_schema_gate_fires_at_exact_threshold() {
    let mut report = empty_report();
    report.large_schema_warning = Some(LargeSchemaWarning {
        table_count: LARGE_SCHEMA_GATE_THRESHOLD,
        recommended_max: LARGE_SCHEMA_GATE_THRESHOLD,
    });
    let options = DesignOptions { large_schema_acknowledged: true, ..DesignOptions::default() };
    let gates = evaluate_design_gates(&report, &options);
    assert_eq!(gates.len(), 1);
    assert_eq!(gates[0].status, GateStatus::Met);
    assert!(design_allowed(&gates));
}

#[test]
fn unmet_blocking_gates_lists_only_blockers() {
    let mut report = empty_report();
    report.ambiguous_columns = vec![ambiguous("orders", "status")];
    report.analysis_completeness = AnalysisCompleteness::Partial;
    let gates = evaluate_design_gates(&report, &Default::default());
    let unmet = unmet_blocking_gates(&gates);
    assert_eq!(unmet.len(), 2);
    assert!(unmet.contains(&GateId::ColumnClarificationsResolved));
    assert!(unmet.contains(&GateId::PartialAnalysisAcknowledged));
}

#[test]
fn gates_come_in_fixed_order_and_allowed_iff_none_unmet() {
    let mut report = empty_report();
    report.ambiguous_columns = vec![ambiguous("a", "x"), ambiguous("b", "y")];
    report.analysis_completeness = AnalysisCompleteness::Partial;
    report.analysis_warnings = vec!["w1".to_string(), "w2".to_string(), "w3".to_string()];
    report.large_schema_warning =
        Some(LargeSchemaWarning { table_count: 250, recommended_max: 100 });
    let options = DesignOptions {
        column_clarifications: vec![ColumnClarification {
            table: "a".to_string(),
            column: "x".to_string(),
            hint: String::new(),
        }],
        partial_analysis_acknowledged: true,
        large_schema_acknowledged: true,
    };
    let gates = evaluate_design_gates(&report, &options);
    let ids: Vec<GateId> = gates.iter().map(|g| g.id).collect();
    assert_eq!(
        ids,
        vec![
            GateId::ColumnClarificationsResolved,
            GateId::PartialAnalysisAcknowledged,
            GateId::LargeSchemaAcknowledged
        ]
    );
    assert_eq!(gates[0].param("pending_count").map(String::as_str), Some("1"));
    assert_eq!(gates[0].param("total_count").map(String::as_str), Some("2"));
    assert_eq!(gates[1].param("warning_count").map(String::as_str), Some("3"));
    assert_eq!(gates[0].anchor.as_deref(), Some("review-clarifications"));
    assert_eq!(unmet_blocking_gates(&gates), vec![GateId::ColumnClarificationsResolved]);
    assert!(!design_allowed(&gates));
    assert_eq!(GateId::LargeSchemaAcknowledged.as_str(), "large_schema_acknowledged");
}
