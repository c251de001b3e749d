use sha2::Digest;
use ox_ontology::heuristic::{
    ConfidenceBps, HeuristicDetectorKind, HeuristicProposal, HeuristicProposalState,
    HeuristicProvenance,
};

#[test]
fn confidence_from_bps_caps_at_full() {
    assert_eq!(ConfidenceBps::from_bps(11_000).as_bps(), 10_000);
    assert_eq!(ConfidenceBps::from_bps(0).as_bps(), 0);
    assert_eq!(ConfidenceBps::from_bps(7_500).as_bps(), 7_500);
}

#[test]
fn default_confidence_is_zero() {
    assert_eq!(ConfidenceBps::default().as_bps(), 0);
}

#[test]
fn detector_ids_are_wire_stable() {
    assert_eq!(HeuristicDetectorKind::ForeignKeyInference.id(), "foreign_key_inference");
    assert_eq!(HeuristicDetectorKind::PiiHeuristicScan.id(), "pii_heuristic_scan");
    assert_eq!(
        HeuristicDetectorKind::Custom { detector_id: "my_detector".to_string() }.id(),
        "my_detector"
    );
}

fn proposal(evidence: &str, version: u32) -> HeuristicProposal {
    HeuristicProposal::new(
        HeuristicDetectorKind::ValueSetInference,
        version,
        ConfidenceBps::from_bps(8_000),
        evidence.to_string(),
        1_700_000_000,
        1_700_086_400,
    )
}

#[test]
fn same_evidence_yields_same_proposal_id() {
    let a = proposal("{\"column\":\"status\"}", 1);
    let b = proposal("{\"column\":\"status\"}", 1);
    assert_eq!(a.id, b.id);
    assert_eq!(a.evidence_hash.len(), 64);
    assert!(a.id.starts_with("hp-"));
    assert_eq!(a.id, format!("hp-{}", a.evidence_hash));
    assert_eq!(a.state, HeuristicProposalState::Pending);
}

#[test]
fn evidence_or_version_change_changes_the_hash() {
    let a = proposal("{\"column\":\"status\"}", 1);
    let b = proposal("{\"column\":\"kind\"}", 1);
    let c = proposal("{\"column\":\"status\"}", 2);
    assert_ne!(a.evidence_hash, b.evidence_hash);
    assert_ne!(a.evidence_hash, c.evidence_hash);
}

#[test]
fn evidence_hash_is_sha256_of_id_version_and_evidence() {
    // SHA-256 of "value_set_inference" ++ [1, 0, 0, 0] ++ "{}", computed independently.
    let mut bytes = b"value_set_inference".to_vec();
    bytes.extend_from_slice(&1u32.to_le_bytes());
    bytes.extend_from_slice(b"{}");
    let expected = format!("{:x}", sha2::Sha256::digest(&bytes));
    assert_eq!(proposal("{}", 1).evidence_hash, expected);
}

#[test]
fn auto_accept_needs_a_threshold_and_reaches_it_inclusively() {
    let mut p = proposal("{}", 1);
    assert!(!p.meets_auto_accept_threshold());
    p.auto_accept_threshold = Some(ConfidenceBps::from_bps(8_000));
    assert!(p.meets_auto_accept_threshold());
    p.auto_accept_threshold = Some(ConfidenceBps::from_bps(8_001));
    assert!(!p.meets_auto_accept_threshold());
}

#[test]
fn provenance_copies_the_proposal_identity() {
    let p = proposal("{}", 3);
    let r = HeuristicProvenance::record_with_id(
        &p,
        HeuristicProposalState::Accepted,
        "user-1".to_string(),
        42,
        None,
        "0000",
    );
    assert_eq!(r.id, "hpv-0000");
    assert_eq!(r.proposal_id, p.id);
    assert_eq!(r.evidence_hash, p.evidence_hash);
    assert_eq!(r.detector_version, 3);
    let fresh = HeuristicProvenance::record(&p, HeuristicProposalState::Declined, "u".into(), 1, None);
    assert!(fresh.id.starts_with("hpv-"));
    assert_eq!(fresh.decision, HeuristicProposalState::Declined);
}

fn now() -> i64 {
    chrono::Utc::now().timestamp()
}

const DAY: i64 = 24 * 3600;

#[test]
fn proposal_id_is_deterministic_per_evidence() {
    let evidence = "{\"col\":\"id\",\"matches\":[\"pk\",\"users.id\"]}".to_string();
    let now = now();
    let exp = now + DAY;
    let p1 = HeuristicProposal::new(
        HeuristicDetectorKind::ForeignKeyInference,
        1,
        ConfidenceBps::from_bps(8_500),
        evidence.clone(),
        now,
        exp,
    );
    let p2 = HeuristicProposal::new(
        HeuristicDetectorKind::ForeignKeyInference,
        1,
        ConfidenceBps::from_bps(8_500),
        evidence,
        now,
        exp,
    );
    assert_eq!(p1.id, p2.id, "same evidence must dedup to same id");
    assert_eq!(p1.evidence_hash, p2.evidence_hash);
}

#[test]
fn proposal_id_changes_when_evidence_changes() {
    let now = now();
    let exp = now + DAY;
    let p1 = HeuristicProposal::new(
        HeuristicDetectorKind::ForeignKeyInference,
        1,
        ConfidenceBps::from_bps(8_500),
        "{\"col\":\"id\"}".to_string(),
        now,
        exp,
    );
    let p2 = HeuristicProposal::new(
        HeuristicDetectorKind::ForeignKeyInference,
        1,
        ConfidenceBps::from_bps(8_500),
        "{\"col\":\"user_id\"}".to_string(),
        now,
        exp,
    );
    assert_ne!(p1.id, p2.id);
    assert_ne!(p1.evidence_hash, p2.evidence_hash);
}

#[test]
fn proposal_id_changes_when_detector_version_bumps() {
    let now = now();
    let exp = now + DAY;
    let evidence = "{\"col\":\"id\"}".to_string();
    let v1 = HeuristicProposal::new(
        HeuristicDetectorKind::ForeignKeyInference,
        1,
        ConfidenceBps::from_bps(8_500),
        evidence.clone(),
        now,
        exp,
    );
    let v2 = HeuristicProposal::new(
        HeuristicDetectorKind::ForeignKeyInference,
        2,
        ConfidenceBps::from_bps(8_500),
        evidence,
        now,
        exp,
    );
    assert_ne!(
        v1.id, v2.id,
        "version bump must produce a new proposal — auto-accept policy is keyed on (detector, version)"
    );
}

#[test]
fn auto_accept_threshold_is_inclusive_at_equality() {
    let now = now();
    let exp = now + DAY;
    let mut p = HeuristicProposal::new(
        HeuristicDetectorKind::GlossaryBindingSuggestion,
        1,
        ConfidenceBps::from_bps(8_000),
        "{}".to_string(),
        now,
        exp,
    );
    p.auto_accept_threshold = Some(ConfidenceBps::from_bps(8_000));
    assert!(p.meets_auto_accept_threshold());
}

#[test]
fn auto_accept_rejected_below_threshold() {
    let now = now();
    let exp = now + DAY;
    let mut p = HeuristicProposal::new(
        HeuristicDetectorKind::GlossaryBindingSuggestion,
        1,
        ConfidenceBps::from_bps(6_999),
        "{}".to_string(),
        now,
        exp,
    );
    p.auto_accept_threshold = Some(ConfidenceBps::from_bps(7_000));
    assert!(!p.meets_auto_accept_threshold());
}

#[test]
fn auto_accept_requires_explicit_threshold() {
    let now = now();
    let exp = now + DAY;
    let p = HeuristicProposal::new(
        HeuristicDetectorKind::GlossaryBindingSuggestion,
        1,
        ConfidenceBps::from_bps(9_999),
        "{}".to_string(),
        now,
        exp,
    );
    assert!(
        !p.meets_auto_accept_threshold(),
        "even maximum confidence must require operator review when no threshold is set"
    );
}

#[test]
fn provenance_pins_decision_and_carries_evidence_hash() {
    let now = now();
    let exp = now + DAY;
    let proposal = HeuristicProposal::new(
        HeuristicDetectorKind::PiiHeuristicScan,
        1,
        ConfidenceBps::from_bps(8_500),
        "{\"column\":\"ssn\",\"match\":\"regex\"}".to_string(),
        now,
        exp,
    );
    let prov = HeuristicProvenance::record(
        &proposal,
        HeuristicProposalState::Accepted,
        "alice".to_string(),
        now + 5 * 60,
        Some("matches policy".to_string()),
    );
    assert_eq!(prov.proposal_id, proposal.id);
    assert_eq!(prov.evidence_hash, proposal.evidence_hash);
    assert_eq!(prov.decision, HeuristicProposalState::Accepted);
    assert_eq!(prov.decided_by, "alice");
}
