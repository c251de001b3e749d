//! SHACL-style validation rules attached to an ontology.

use vstd::prelude::*;

use crate::model::{copy_opt_text, copy_texts, copy_vec, models, opt_text, texts, DeepCopy, Keyed};

verus! {

/// Two-language text: the English default and the Korean rendering.
#[derive(Debug, Clone, PartialEq, Eq, Default)]
pub struct Bilingual {
    pub en: String,
    pub ko: String,
}

/// Model of a [`Bilingual`] text.
pub struct BilingualModel {
    pub en: Seq<char>,
    pub ko: Seq<char>,
}

impl View for Bilingual {
    type V = BilingualModel;

    open spec fn view(&self) -> BilingualModel {
        BilingualModel { en: self.en@, ko: self.ko@ }
    }
}

impl DeepCopy for Bilingual {
    fn deep_copy(&self) -> (r: Bilingual) {
        Bilingual { en: self.en.clone(), ko: self.ko.clone() }
    }
}

/// What a constraint applies to.
#[derive(Debug, Clone, PartialEq, Eq)]
pub enum ConstraintTarget {
    /// The rule's own target.
    Inherit,
    Property { node_type_id: String, property_id: String },
    NodeType { node_type_id: String },
    EdgeLabel { edge_type_id: String },
}

/// Kinds of [`ConstraintTarget`].
#[derive(Debug, Clone, Copy, PartialEq, Eq, Structural)]
pub enum TargetKind {
    Inherit,
    Property,
    NodeType,
    EdgeLabel,
}

/// Model of a [`ConstraintTarget`]; unused ids are empty.
pub struct TargetModel {
    pub kind: TargetKind,
    pub node_type_id: Seq<char>,
    pub property_id: Seq<char>,
    pub edge_type_id: Seq<char>,
}

impl View for ConstraintTarget {
    type V = TargetModel;

    open spec fn view(&self) -> TargetModel {
        match self {
            ConstraintTarget::Inherit => TargetModel {
                kind: TargetKind::Inherit,
                node_type_id: Seq::empty(),
                property_id: Seq::empty(),
                edge_type_id: Seq::empty(),
            },
            ConstraintTarget::Property { node_type_id, property_id } => TargetModel {
                kind: TargetKind::Property,
                node_type_id: node_type_id@,
                property_id: property_id@,
                edge_type_id: Seq::empty(),
            },
            ConstraintTarget::NodeType { node_type_id } => TargetModel {
                kind: TargetKind::NodeType,
                node_type_id: node_type_id@,
                property_id: Seq::empty(),
                edge_type_id: Seq::empty(),
            },
            ConstraintTarget::EdgeLabel { edge_type_id } => TargetModel {
                kind: TargetKind::EdgeLabel,
                node_type_id: Seq::empty(),
                property_id: Seq::empty(),
                edge_type_id: edge_type_id@,
            },
        }
    }
}

impl DeepCopy for ConstraintTarget {
    fn deep_copy(&self) -> (r: ConstraintTarget) {
        match self {
            ConstraintTarget::Inherit => ConstraintTarget::Inherit,
            ConstraintTarget::Property { node_type_id, property_id } => ConstraintTarget::Property {
                node_type_id: node_type_id.clone(),
                property_id: property_id.clone(),
            },
            ConstraintTarget::NodeType { node_type_id } => ConstraintTarget::NodeType {
                node_type_id: node_type_id.clone(),
            },
            ConstraintTarget::EdgeLabel { edge_type_id } => ConstraintTarget::EdgeLabel {
                edge_type_id: edge_type_id.clone(),
            },
        }
    }
}

/// One SHACL constraint.
#[derive(Debug, Clone, PartialEq, Eq)]
pub enum ShaclConstraint {
    MinCount { target: ConstraintTarget, min: u32 },
    MaxCount { target: ConstraintTarget, max: u32 },
    MatchesPattern { target: ConstraintTarget, notation_pattern_id: String },
    InValueSet { target: ConstraintTarget, value_set_id: String },
    MinLength { target: ConstraintTarget, min: u32 },
    MaxLength { target: ConstraintTarget, max: u32 },
    LessThan { target: ConstraintTarget, other_property_id: String },
    Equals { target: ConstraintTarget, other_property_id: String },
    Disjoint { property_ids: Vec<String> },
    UniqueKey { property_ids: Vec<String> },
}

/// Kinds of [`ShaclConstraint`].
#[derive(Debug, Clone, Copy, PartialEq, Eq, Structural)]
pub enum ConstraintKind {
    MinCount,
    MaxCount,
    MatchesPattern,
    InValueSet,
    MinLength,
    MaxLength,
    LessThan,
    Equals,
    Disjoint,
    UniqueKey,
}

/// Model of a [`ShaclConstraint`]: its kind, target (when it has a
/// single one), numeric bound, referenced id and property list.
pub struct ShaclModel {
    pub kind: ConstraintKind,
    pub target: Option<TargetModel>,
    pub bound: u32,
    pub reference: Seq<char>,
    pub property_ids: Seq<Seq<char>>,
}

impl View for ShaclConstraint {
    type V = ShaclModel;

    open spec fn view(&self) -> ShaclModel {
        match self {
            ShaclConstraint::MinCount { target, min } => ShaclModel {
                kind: ConstraintKind::MinCount,
                target: Some(target@),
                bound: *min,
                reference: Seq::empty(),
                property_ids: Seq::empty(),
            },
            ShaclConstraint::MaxCount { target, max } => ShaclModel {
                kind: ConstraintKind::MaxCount,
                target: Some(target@),
                bound: *max,
                reference: Seq::empty(),
                property_ids: Seq::empty(),
            },
            ShaclConstraint::MatchesPattern { target, notation_pattern_id } => ShaclModel {
                kind: ConstraintKind::MatchesPattern,
                target: Some(target@),
                bound: 0,
                reference: notation_pattern_id@,
                property_ids: Seq::empty(),
            },
            ShaclConstraint::InValueSet { target, value_set_id } => ShaclModel {
                kind: ConstraintKind::InValueSet,
                target: Some(target@),
                bound: 0,
                reference: value_set_id@,
                property_ids: Seq::empty(),
            },
            ShaclConstraint::MinLength { target, min } => ShaclModel {
                kind: ConstraintKind::MinLength,
                target: Some(target@),
                bound: *min,
                reference: Seq::empty(),
                property_ids: Seq::empty(),
            },
            ShaclConstraint::MaxLength { target, max } => ShaclModel {
                kind: ConstraintKind::MaxLength,
                target: Some(target@),
                bound: *max,
                reference: Seq::empty(),
                property_ids: Seq::empty(),
            },
            ShaclConstraint::LessThan { target, other_property_id } => ShaclModel {
                kind: ConstraintKind::LessThan,
                target: Some(target@),
                bound: 0,
                reference: other_property_id@,
                property_ids: Seq::empty(),
            },
            ShaclConstraint::Equals { target, other_property_id } => ShaclModel {
                kind: ConstraintKind::Equals,
                target: Some(target@),
                bound: 0,
                reference: other_property_id@,
                property_ids: Seq::empty(),
            },
            ShaclConstraint::Disjoint { property_ids } => ShaclModel {
                kind: ConstraintKind::Disjoint,
                target: None,
                bound: 0,
                reference: Seq::empty(),
                property_ids: texts(property_ids@),
            },
            ShaclConstraint::UniqueKey { property_ids } => ShaclModel {
                kind: ConstraintKind::UniqueKey,
                target: None,
                bound: 0,
                reference: Seq::empty(),
                property_ids: texts(property_ids@),
            },
        }
    }
}

impl DeepCopy for ShaclConstraint {
    fn deep_copy(&self) -> (r: ShaclConstraint) {
        match self {
            ShaclConstraint::MinCount { target, min } => ShaclConstraint::MinCount {
                target: target.deep_copy(),
                min: *min,
            },
            ShaclConstraint::MaxCount { target, max } => ShaclConstraint::MaxCount {
                target: target.deep_copy(),
                max: *max,
            },
            ShaclConstraint::MatchesPattern { target, notation_pattern_id } =>
                ShaclConstraint::MatchesPattern {
                target: target.deep_copy(),
                notation_pattern_id: notation_pattern_id.clone(),
            },
            ShaclConstraint::InValueSet { target, value_set_id } => ShaclConstraint::InValueSet {
                target: target.deep_copy(),
                value_set_id: value_set_id.clone(),
            },
            ShaclConstraint::MinLength { target, min } => ShaclConstraint::MinLength {
                target: target.deep_copy(),
                min: *min,
            },
            ShaclConstraint::MaxLength { target, max } => ShaclConstraint::MaxLength {
                target: target.deep_copy(),
                max: *max,
            },
            ShaclConstraint::LessThan { target, other_property_id } => ShaclConstraint::LessThan {
                target: target.deep_copy(),
                other_property_id: other_property_id.clone(),
            },
            ShaclConstraint::Equals { target, other_property_id } => ShaclConstraint::Equals {
                target: target.deep_copy(),
                other_property_id: other_property_id.clone(),
            },
            ShaclConstraint::Disjoint { property_ids } => ShaclConstraint::Disjoint {
                property_ids: copy_texts(property_ids),
            },
            ShaclConstraint::UniqueKey { property_ids } => ShaclConstraint::UniqueKey {
                property_ids: copy_texts(property_ids),
            },
        }
    }
}

/// Identity of a constraint for deduplication: constraints of the same
/// signature on the same property enforce the same thing.
#[derive(Debug, Clone, PartialEq, Eq, Hash)]
pub enum ConstraintSignature {
    MinCount,
    MaxCount,
    InValueSet { value_set_id: String },
    MatchesPattern { notation_pattern_id: String },
}

/// Model of a [`ConstraintSignature`].
pub struct SignatureModel {
    pub kind: ConstraintKind,
    pub reference: Seq<char>,
}

impl View for ConstraintSignature {
    type V = SignatureModel;

    open spec fn view(&self) -> SignatureModel {
        match self {
            ConstraintSignature::MinCount => SignatureModel {
                kind: ConstraintKind::MinCount,
                reference: Seq::empty(),
            },
            ConstraintSignature::MaxCount => SignatureModel {
                kind: ConstraintKind::MaxCount,
                reference: Seq::empty(),
            },
            ConstraintSignature::InValueSet { value_set_id } => SignatureModel {
                kind: ConstraintKind::InValueSet,
                reference: value_set_id@,
            },
            ConstraintSignature::MatchesPattern { notation_pattern_id } => SignatureModel {
                kind: ConstraintKind::MatchesPattern,
                reference: notation_pattern_id@,
            },
        }
    }
}

/// Signature of a constraint model; `None` for dedup-independent kinds.
pub open spec fn signature_of(c: ShaclModel) -> Option<SignatureModel> {
    if c.kind == ConstraintKind::MinCount || c.kind == ConstraintKind::MaxCount {
        Some(SignatureModel { kind: c.kind, reference: Seq::empty() })
    } else if c.kind == ConstraintKind::InValueSet || c.kind == ConstraintKind::MatchesPattern {
        Some(SignatureModel { kind: c.kind, reference: c.reference })
    } else {
        None
    }
}

/// A cross-collection id a constraint references.
#[derive(Debug, Clone, PartialEq, Eq)]
pub enum ConstraintRef {
    ValueSet(String),
    NotationPattern(String),
    PropertyId(String),
}

impl ShaclConstraint {
    /// The constraint's single target, if it has one.
    pub fn target(&self) -> (r: Option<&ConstraintTarget>)
        ensures
            match r {
                Some(t) => self@.target == Some(t@),
                None => self@.target is None,
            },
    {
        match self {
            ShaclConstraint::MinCount { target, .. }
            | ShaclConstraint::MaxCount { target, .. }
            | ShaclConstraint::MatchesPattern { target, .. }
            | ShaclConstraint::InValueSet { target, .. }
            | ShaclConstraint::MinLength { target, .. }
            | ShaclConstraint::MaxLength { target, .. }
            | ShaclConstraint::LessThan { target, .. }
            | ShaclConstraint::Equals { target, .. } => Some(target),
            ShaclConstraint::Disjoint { .. } | ShaclConstraint::UniqueKey { .. } => None,
        }
    }

    /// Deduplication signature; `None` for dedup-independent kinds.
    pub fn signature(&self) -> (r: Option<ConstraintSignature>)
        ensures
            match r {
                Some(s) => signature_of(self@) == Some(s@),
                None => signature_of(self@) is None,
            },
    {
        match self {
            ShaclConstraint::MinCount { .. } => Some(ConstraintSignature::MinCount),
            ShaclConstraint::MaxCount { .. } => Some(ConstraintSignature::MaxCount),
            ShaclConstraint::InValueSet { value_set_id, .. } => Some(
                ConstraintSignature::InValueSet { value_set_id: value_set_id.clone() },
            ),
            ShaclConstraint::MatchesPattern { notation_pattern_id, .. } => Some(
                ConstraintSignature::MatchesPattern {
                    notation_pattern_id: notation_pattern_id.clone(),
                },
            ),
            _ => None,
        }
    }

    /// Short kind label used in dependency edge labels.
    pub fn label_kind(&self) -> (r: &'static str)
        ensures
            r@ == constraint_kind_label(self@.kind),
    {
        match self {
            ShaclConstraint::MinCount { .. } => "MinCount",
            ShaclConstraint::MaxCount { .. } => "MaxCount",
            ShaclConstraint::MatchesPattern { .. } => "MatchesPattern",
            ShaclConstraint::InValueSet { .. } => "InValueSet",
            ShaclConstraint::MinLength { .. } => "MinLength",
            ShaclConstraint::MaxLength { .. } => "MaxLength",
            ShaclConstraint::LessThan { .. } => "LessThan",
            ShaclConstraint::Equals { .. } => "Equals",
            ShaclConstraint::Disjoint { .. } => "Disjoint",
            ShaclConstraint::UniqueKey { .. } => "UniqueKey",
        }
    }
}

/// Label of a constraint kind.
pub open spec fn constraint_kind_label(k: ConstraintKind) -> Seq<char> {
    match k {
        ConstraintKind::MinCount => "MinCount"@,
        ConstraintKind::MaxCount => "MaxCount"@,
        ConstraintKind::MatchesPattern => "MatchesPattern"@,
        ConstraintKind::InValueSet => "InValueSet"@,
        ConstraintKind::MinLength => "MinLength"@,
        ConstraintKind::MaxLength => "MaxLength"@,
        ConstraintKind::LessThan => "LessThan"@,
        ConstraintKind::Equals => "Equals"@,
        ConstraintKind::Disjoint => "Disjoint"@,
        ConstraintKind::UniqueKey => "UniqueKey"@,
    }
}

/// What a rule shapes.
#[derive(Debug, Clone, PartialEq, Eq)]
pub enum RuleKind {
    NodeShape { target_node_type_id: String },
    PropertyShape { target_node_type_id: String, target_property_id: String },
    EdgeShape { target_edge_type_id: String },
    /// Cross-entity check in source SQL; its targets are opaque.
    CrossEntityShape { sql: String },
    StateMachine { node_type_id: String, property_id: String },
}

/// Kinds of [`RuleKind`].
#[derive(Debug, Clone, Copy, PartialEq, Eq, Structural)]
pub enum RuleKindTag {
    NodeShape,
    PropertyShape,
    EdgeShape,
    CrossEntityShape,
    StateMachine,
}

/// Model of a [`RuleKind`]: the tag and its (up to two) ids.
pub struct RuleKindModel {
    pub tag: RuleKindTag,
    pub first: Seq<char>,
    pub second: Seq<char>,
}

impl View for RuleKind {
    type V = RuleKindModel;

    open spec fn view(&self) -> RuleKindModel {
        match self {
            RuleKind::NodeShape { target_node_type_id } => RuleKindModel {
                tag: RuleKindTag::NodeShape,
                first: target_node_type_id@,
                second: Seq::empty(),
            },
            RuleKind::PropertyShape { target_node_type_id, target_property_id } =>
                RuleKindModel {
                tag: RuleKindTag::PropertyShape,
                first: target_node_type_id@,
                second: target_property_id@,
            },
            RuleKind::EdgeShape { target_edge_type_id } => RuleKindModel {
                tag: RuleKindTag::EdgeShape,
                first: target_edge_type_id@,
                second: Seq::empty(),
            },
            RuleKind::CrossEntityShape { sql } => RuleKindModel {
                tag: RuleKindTag::CrossEntityShape,
                first: sql@,
                second: Seq::empty(),
            },
            RuleKind::StateMachine { node_type_id, property_id } => RuleKindModel {
                tag: RuleKindTag::StateMachine,
                first: node_type_id@,
                second: property_id@,
            },
        }
    }
}

impl DeepCopy for RuleKind {
    fn deep_copy(&self) -> (r: RuleKind) {
        match self {
            RuleKind::NodeShape { target_node_type_id } => RuleKind::NodeShape {
                target_node_type_id: target_node_type_id.clone(),
            },
            RuleKind::PropertyShape { target_node_type_id, target_property_id } =>
                RuleKind::PropertyShape {
                target_node_type_id: target_node_type_id.clone(),
                target_property_id: target_property_id.clone(),
            },
            RuleKind::EdgeShape { target_edge_type_id } => RuleKind::EdgeShape {
                target_edge_type_id: target_edge_type_id.clone(),
            },
            RuleKind::CrossEntityShape { sql } => RuleKind::CrossEntityShape { sql: sql.clone() },
            RuleKind::StateMachine { node_type_id, property_id } => RuleKind::StateMachine {
                node_type_id: node_type_id.clone(),
                property_id: property_id.clone(),
            },
        }
    }
}

/// Violation severity.
#[derive(Debug, Clone, Copy, PartialEq, Eq, Structural)]
pub enum Severity {
    Violation,
    Warning,
    Info,
}

/// When a rule is enforced.
#[derive(Debug, Clone, Copy, PartialEq, Eq, Structural)]
pub enum EnforcementKind {
    Write,
    Advisory,
}

/// When a rule activates.
#[derive(Debug, Clone, PartialEq, Eq)]
pub enum RuleActivationKind {
    Always,
    OnAction { action_id: String },
}

/// Model of a [`RuleActivationKind`]: `None` for always-on rules.
pub open spec fn activation_model(a: RuleActivationKind) -> Option<Seq<char>> {
    match a {
        RuleActivationKind::Always => None,
        RuleActivationKind::OnAction { action_id } => Some(action_id@),
    }
}

/// Where a rule came from.
#[derive(Debug, Clone, PartialEq, Eq)]
pub enum RuleOrigin {
    Authored,
    DerivedFromBinding { node_type_id: String, property_id: String },
}

/// Model of a [`RuleOrigin`]: `None` for authored rules.
pub open spec fn origin_model(o: RuleOrigin) -> Option<(Seq<char>, Seq<char>)> {
    match o {
        RuleOrigin::Authored => None,
        RuleOrigin::DerivedFromBinding { node_type_id, property_id } => Some(
            (node_type_id@, property_id@),
        ),
    }
}

/// A validation rule.
#[derive(Debug, Clone, PartialEq, Eq)]
pub struct RuleDef {
    pub id: String,
    pub name: Bilingual,
    pub description: String,
    pub rationale: Bilingual,
    pub kind: RuleKind,
    pub severity: Severity,
    pub enforcement: EnforcementKind,
    pub activation: RuleActivationKind,
    pub origin: RuleOrigin,
    pub constraints: Vec<ShaclConstraint>,
    pub valid_from: Option<i64>,
    pub valid_to: Option<i64>,
    pub sh_message: Option<String>,
}

/// Model of a [`RuleDef`].
pub struct RuleModel {
    pub id: Seq<char>,
    pub name: BilingualModel,
    pub description: Seq<char>,
    pub rationale: BilingualModel,
    pub kind: RuleKindModel,
    pub severity: Severity,
    pub enforcement: EnforcementKind,
    pub activation: Option<Seq<char>>,
    pub origin: Option<(Seq<char>, Seq<char>)>,
    pub constraints: Seq<ShaclModel>,
    pub valid_from: Option<i64>,
    pub valid_to: Option<i64>,
    pub sh_message: Option<Seq<char>>,
}

impl View for RuleDef {
    type V = RuleModel;

    open spec fn view(&self) -> RuleModel {
        RuleModel {
            id: self.id@,
            name: self.name@,
            description: self.description@,
            rationale: self.rationale@,
            kind: self.kind@,
            severity: self.severity,
            enforcement: self.enforcement,
            activation: activation_model(self.activation),
            origin: origin_model(self.origin),
            constraints: models(self.constraints@),
            valid_from: self.valid_from,
            valid_to: self.valid_to,
            sh_message: opt_text(self.sh_message),
        }
    }
}

impl DeepCopy for RuleDef {
    fn deep_copy(&self) -> (r: RuleDef) {
        RuleDef {
            id: self.id.clone(),
            name: self.name.deep_copy(),
            description: self.description.clone(),
            rationale: self.rationale.deep_copy(),
            kind: self.kind.deep_copy(),
            severity: self.severity,
            enforcement: self.enforcement,
            activation: match &self.activation {
                RuleActivationKind::Always => RuleActivationKind::Always,
                RuleActivationKind::OnAction { action_id } => RuleActivationKind::OnAction {
                    action_id: action_id.clone(),
                },
            },
            origin: match &self.origin {
                RuleOrigin::Authored => RuleOrigin::Authored,
                RuleOrigin::DerivedFromBinding { node_type_id, property_id } =>
                    RuleOrigin::DerivedFromBinding {
                    node_type_id: node_type_id.clone(),
                    property_id: property_id.clone(),
                },
            },
            constraints: copy_vec(&self.constraints),
            valid_from: self.valid_from,
            valid_to: self.valid_to,
            sh_message: copy_opt_text(&self.sh_message),
        }
    }
}


impl Keyed for RuleDef {
    open spec fn key_of(m: RuleModel) -> Seq<char> {
        m.id
    }

    fn key(&self) -> (r: &String) {
        &self.id
    }
}

} // verus!
