//! Heuristic proposals: suggestions from detectors that never change
//! an ontology directly but wait in a review queue.
//!
//! A proposal's confidence is in basis points, capped at 10 000. Its id
//! is derived from the SHA-256 digest of the detector id, the detector
//! version and the evidence, so re-running a detector on unchanged
//! data yields the same proposal.

use vstd::prelude::*;

use crate::crypto::{hex_lower, sha256_hex, sha256_of};
use vstd::string::StringExecFns;
use vstd::utf8::encode_utf8;

verus! {

/// Detectors that emit proposals.
#[derive(Debug, Clone, PartialEq, Eq, Hash)]
pub enum HeuristicDetectorKind {
    ForeignKeyInference,
    ValueSetInference,
    NotationPatternInference,
    GlossaryBindingSuggestion,
    ReconcileFuzzyMatch,
    PiiHeuristicScan,
    FederatedEdgeProposal,
    /// An experimental detector registered under its own id.
    Custom { detector_id: String },
}

/// Stable wire identifier of a detector.
pub open spec fn detector_id(k: HeuristicDetectorKind) -> Seq<char> {
    match k {
        HeuristicDetectorKind::ForeignKeyInference => "foreign_key_inference"@,
        HeuristicDetectorKind::ValueSetInference => "value_set_inference"@,
        HeuristicDetectorKind::NotationPatternInference => "notation_pattern_inference"@,
        HeuristicDetectorKind::GlossaryBindingSuggestion => "glossary_binding_suggestion"@,
        HeuristicDetectorKind::ReconcileFuzzyMatch => "reconcile_fuzzy_match"@,
        HeuristicDetectorKind::PiiHeuristicScan => "pii_heuristic_scan"@,
        HeuristicDetectorKind::FederatedEdgeProposal => "federated_edge_proposal"@,
        HeuristicDetectorKind::Custom { detector_id } => detector_id@,
    }
}

impl HeuristicDetectorKind {
    /// Stable wire identifier, used in audit rows and in the evidence
    /// digest.
    pub fn id(&self) -> (r: String)
        ensures
            r@ == detector_id(*self),
    {
        match self {
            HeuristicDetectorKind::ForeignKeyInference => String::from_str("foreign_key_inference"),
            HeuristicDetectorKind::ValueSetInference => String::from_str("value_set_inference"),
            HeuristicDetectorKind::NotationPatternInference => String::from_str(
                "notation_pattern_inference",
            ),
            HeuristicDetectorKind::GlossaryBindingSuggestion => String::from_str(
                "glossary_binding_suggestion",
            ),
            HeuristicDetectorKind::ReconcileFuzzyMatch => String::from_str("reconcile_fuzzy_match"),
            HeuristicDetectorKind::PiiHeuristicScan => String::from_str("pii_heuristic_scan"),
            HeuristicDetectorKind::FederatedEdgeProposal => String::from_str(
                "federated_edge_proposal",
            ),
            HeuristicDetectorKind::Custom { detector_id } => detector_id.clone(),
        }
    }
}

/// Full confidence, in basis points.
pub const FULL_CONFIDENCE_BPS: u32 = 10_000;

/// Confidence in basis points, never above [`FULL_CONFIDENCE_BPS`].
#[derive(Debug, Clone, Copy, PartialEq, Eq, Hash, PartialOrd, Ord)]
pub struct ConfidenceBps(u32);

impl View for ConfidenceBps {
    type V = u32;

    closed spec fn view(&self) -> u32 {
        self.0
    }
}

impl ConfidenceBps {
    #[verifier::type_invariant]
    spec fn capped(self) -> bool {
        self.0 <= FULL_CONFIDENCE_BPS
    }

    /// Basis points, saturating at full confidence.
    pub fn from_bps(bps: u32) -> (r: ConfidenceBps)
        ensures
            r@ == if bps <= FULL_CONFIDENCE_BPS {
                bps
            } else {
                FULL_CONFIDENCE_BPS
            },
    {
        if bps <= FULL_CONFIDENCE_BPS {
            ConfidenceBps(bps)
        } else {
            ConfidenceBps(FULL_CONFIDENCE_BPS)
        }
    }

    /// The confidence in basis points.
    pub fn as_bps(self) -> (r: u32)
        ensures
            r == self@,
            r <= FULL_CONFIDENCE_BPS,
    {
        proof {
            use_type_invariant(&self);
        }
        self.0
    }
}

impl Default for ConfidenceBps {
    /// No confidence: such proposals need explicit operator action.
    fn default() -> (r: ConfidenceBps)
        ensures
            r@ == 0,
    {
        ConfidenceBps(0)
    }
}

/// Lifecycle state of a proposal.
#[derive(Debug, Clone, Copy, PartialEq, Eq, Structural)]
pub enum HeuristicProposalState {
    Pending,
    Accepted,
    Declined,
    Expired,
}

/// Little-endian bytes of a `u32`.
pub open spec fn le_bytes(v: u32) -> Seq<u8> {
    seq![
        (v % 256) as u8,
        ((v / 256) % 256) as u8,
        ((v / 65536) % 256) as u8,
        (v / 16777216) as u8,
    ]
}

/// The bytes an evidence digest covers: detector id, version, evidence.
pub open spec fn evidence_message(detector: HeuristicDetectorKind, version: u32, evidence: Seq<char>) -> Seq<u8> {
    encode_utf8(detector_id(detector)) + le_bytes(version) + encode_utf8(evidence)
}

/// The evidence digest: SHA-256 of [`evidence_message`], lowercase hex.
pub open spec fn evidence_digest(detector: HeuristicDetectorKind, version: u32, evidence: Seq<char>) -> Seq<char> {
    hex_lower(sha256_of(evidence_message(detector, version, evidence)))
}

/// One suggestion awaiting review. `evidence` is the evidence payload's
/// JSON text; times are seconds since the Unix epoch.
#[derive(Debug, Clone, PartialEq, Eq)]
pub struct HeuristicProposal {
    pub id: String,
    pub detector: HeuristicDetectorKind,
    pub detector_version: u32,
    pub confidence: ConfidenceBps,
    pub auto_accept_threshold: Option<ConfidenceBps>,
    pub evidence: String,
    pub evidence_hash: String,
    pub state: HeuristicProposalState,
    pub created_at: i64,
    pub expires_at: i64,
}

fn push_bytes(out: &mut Vec<u8>, bytes: &[u8])
    ensures
        final(out)@ == old(out)@ + bytes@,
{
    let mut i: usize = 0;
    while i < bytes.len()
        invariant
            i <= bytes.len(),
            out@ == old(out)@ + bytes@.subrange(0, i as int),
        decreases bytes.len() - i,
    {
        out.push(bytes[i]);
        assert(out@ =~= old(out)@ + bytes@.subrange(0, i + 1));
        i = i + 1;
    }
    assert(bytes@.subrange(0, bytes.len() as int) =~= bytes@);
}

fn hash_evidence(detector: &HeuristicDetectorKind, detector_version: u32, evidence: &String) -> (r: String)
    ensures
        r@ == evidence_digest(*detector, detector_version, evidence@),
{
    let mut msg: Vec<u8> = Vec::new();
    let id = detector.id();
    push_bytes(&mut msg, id.as_str().as_bytes());
    let v = detector_version;
    msg.push((v % 256) as u8);
    msg.push(((v / 256) % 256) as u8);
    msg.push(((v / 65536) % 256) as u8);
    msg.push((v / 16777216) as u8);
    push_bytes(&mut msg, evidence.as_str().as_bytes());
    assert(msg@ =~= evidence_message(*detector, detector_version, evidence@));
    sha256_hex(msg.as_slice())
}

impl HeuristicProposal {
    /// A pending proposal whose evidence hash is
    /// [`evidence_digest`] and whose id is `hp-` and that hash.
    pub fn new(
        detector: HeuristicDetectorKind,
        detector_version: u32,
        confidence: ConfidenceBps,
        evidence: String,
        created_at: i64,
        expires_at: i64,
    ) -> (r: HeuristicProposal)
        ensures
            r.evidence_hash@ == evidence_digest(detector, detector_version, evidence@),
            r.id@ == "hp-"@ + r.evidence_hash@,
            r.detector == detector,
            r.detector_version == detector_version,
            r.confidence == confidence,
            r.auto_accept_threshold is None,
            r.evidence == evidence,
            r.state == HeuristicProposalState::Pending,
            r.created_at == created_at,
            r.expires_at == expires_at,
    {
        let evidence_hash = hash_evidence(&detector, detector_version, &evidence);
        let mut id = String::from_str("hp-");
        id.append(evidence_hash.as_str());
        HeuristicProposal {
            id,
            detector,
            detector_version,
            confidence,
            auto_accept_threshold: None,
            evidence,
            evidence_hash,
            state: HeuristicProposalState::Pending,
            created_at,
            expires_at,
        }
    }

    /// The surface may accept without review: a threshold is set and
    /// the confidence reaches it.
    pub fn meets_auto_accept_threshold(&self) -> (r: bool)
        ensures
            r == match self.auto_accept_threshold {
                Some(t) => self.confidence@ >= t@,
                None => false,
            },
    {
        match self.auto_accept_threshold {
            Some(t) => self.confidence.as_bps() >= t.as_bps(),
            None => false,
        }
    }
}

/// Audit record of a decision on a proposal.
#[derive(Debug, Clone, PartialEq, Eq)]
pub struct HeuristicProvenance {
    pub id: String,
    pub proposal_id: String,
    pub detector: HeuristicDetectorKind,
    pub detector_version: u32,
    pub decision: HeuristicProposalState,
    pub decided_by: String,
    pub decided_at: i64,
    pub evidence_hash: String,
    pub reason: Option<String>,
}

/// The text of a random (version 4) UUID in its hyphenated form: 36
/// characters, `-` at positions 8, 13, 18 and 23, lowercase hex digits
/// elsewhere, the version digit `4` at position 14 and the variant digit
/// (`8`, `9`, `a` or `b`) at position 19.
pub open spec fn uuid_v4_text(s: Seq<char>) -> bool {
    &&& s.len() == 36
    &&& forall|i: int|
        0 <= i < 36 ==> if i == 8 || i == 13 || i == 18 || i == 23 {
            #[trigger] s[i] == '-'
        } else {
            crate::crypto::is_lower_hex(s[i])
        }
    &&& s[14] == '4'
    &&& (s[19] == '8' || s[19] == '9' || s[19] == 'a' || s[19] == 'b')
}

/// `uuid::Uuid::new_v4` rendered with `to_string`: a random version-4
/// UUID in the hyphenated lowercase form its `Display` writes. Which UUID
/// comes back is left to the random source.
#[verifier::external_body]
pub(crate) fn new_uuid_text() -> (r: String)
    ensures
        uuid_v4_text(r@),
{
    uuid::Uuid::new_v4().to_string()
}

impl HeuristicProvenance {
    /// The audit record of `decision` on `proposal`, with id `hpv-` and
    /// `uuid_text`; the proposal's id, detector, version and evidence
    /// hash are copied.
    pub fn record_with_id(
        proposal: &HeuristicProposal,
        decision: HeuristicProposalState,
        decided_by: String,
        decided_at: i64,
        reason: Option<String>,
        uuid_text: &str,
    ) -> (r: HeuristicProvenance)
        ensures
            r.id@ == "hpv-"@ + uuid_text@,
            r.proposal_id@ == proposal.id@,
            r.detector == proposal.detector,
            r.detector_version == proposal.detector_version,
            r.decision == decision,
            r.decided_by == decided_by,
            r.decided_at == decided_at,
            r.evidence_hash@ == proposal.evidence_hash@,
            r.reason == reason,
    {
        let mut id = String::from_str("hpv-");
        id.append(uuid_text);
        let detector = match &proposal.detector {
            HeuristicDetectorKind::ForeignKeyInference => HeuristicDetectorKind::ForeignKeyInference,
            HeuristicDetectorKind::ValueSetInference => HeuristicDetectorKind::ValueSetInference,
            HeuristicDetectorKind::NotationPatternInference => HeuristicDetectorKind::NotationPatternInference,
            HeuristicDetectorKind::GlossaryBindingSuggestion => HeuristicDetectorKind::GlossaryBindingSuggestion,
            HeuristicDetectorKind::ReconcileFuzzyMatch => HeuristicDetectorKind::ReconcileFuzzyMatch,
            HeuristicDetectorKind::PiiHeuristicScan => HeuristicDetectorKind::PiiHeuristicScan,
            HeuristicDetectorKind::FederatedEdgeProposal => HeuristicDetectorKind::FederatedEdgeProposal,
            HeuristicDetectorKind::Custom { detector_id } => HeuristicDetectorKind::Custom {
                detector_id: detector_id.clone(),
            },
        };
        HeuristicProvenance {
            id,
            proposal_id: proposal.id.clone(),
            detector,
            detector_version: proposal.detector_version,
            decision,
            decided_by,
            decided_at,
            evidence_hash: proposal.evidence_hash.clone(),
            reason,
        }
    }

    /// Stamp a decision with a fresh random provenance id.
    pub fn record(
        proposal: &HeuristicProposal,
        decision: HeuristicProposalState,
        decided_by: String,
        decided_at: i64,
        reason: Option<String>,
    ) -> (r: HeuristicProvenance)
        ensures
            exists|u: Seq<char>| uuid_v4_text(u) && r.id@ == "hpv-"@ + u,
            r.proposal_id@ == proposal.id@,
            r.detector == proposal.detector,
            r.detector_version == proposal.detector_version,
            r.decision == decision,
            r.decided_by == decided_by,
            r.decided_at == decided_at,
            r.evidence_hash@ == proposal.evidence_hash@,
            r.reason == reason,
    {
        let uuid = new_uuid_text();
        let r = Self::record_with_id(proposal, decision, decided_by, decided_at, reason, uuid.as_str());
        assert(uuid_v4_text(uuid@) && r.id@ == "hpv-"@ + uuid@);
        r
    }
}

} // verus!
