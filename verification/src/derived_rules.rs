//! Safety-net SHACL rules synthesised from schema-level invariants.
//!
//! A `Required`-strength value-set binding becomes an `InValueSet`
//! rule, a `Required` notation-pattern binding a `MatchesPattern` rule,
//! and `nullable = false` a `MinCount = 1` rule. A derivation is
//! dropped when an authored rule already enforces the same constraint
//! signature on the same property. Derived rule ids are deterministic:
//! [`DERIVED_BINDING_RULE_PREFIX`], node id, property id and target.

use vstd::prelude::*;

use crate::binding::{BindingKind, BindingModel, BindingStrength, PropertyBinding};
use crate::ir::{NodeModel, NodeTypeDef, OntologyIR, OntologyModel, PropertyDef, PropertyModel};
use crate::model::models;
use crate::rule::{
    Bilingual, BilingualModel, ConstraintKind, ConstraintSignature, ConstraintTarget,
    EnforcementKind, RuleActivationKind, RuleDef, RuleKind, RuleKindModel, RuleKindTag,
    RuleModel, RuleOrigin, Severity, ShaclConstraint, ShaclModel, SignatureModel, TargetKind,
    TargetModel, signature_of,
};
use crate::text::str_equal;
use vstd::string::StringExecFns;

verus! {

/// Prefix of every synthesised rule id.
pub const DERIVED_BINDING_RULE_PREFIX: &'static str = "derived:binding:";

/// `(node type id, property id, signature)` of an enforced constraint.
pub type SignatureTriple = (String, String, ConstraintSignature);

/// Model of a [`SignatureTriple`].
pub type TripleModel = (Seq<char>, Seq<char>, SignatureModel);

// ---------------------------------------------------------------------------
// What a derived rule is
// ---------------------------------------------------------------------------

/// The model of a constraint on the rule's own target.
pub open spec fn inherit_constraint(kind: ConstraintKind, bound: u32, reference: Seq<char>) -> ShaclModel {
    ShaclModel {
        kind,
        target: Some(
            TargetModel {
                kind: TargetKind::Inherit,
                node_type_id: Seq::empty(),
                property_id: Seq::empty(),
                edge_type_id: Seq::empty(),
            },
        ),
        bound,
        reference,
        property_ids: Seq::empty(),
    }
}

/// Name of a derived rule, from the node label and property name.
pub open spec fn derived_name(n: NodeModel, p: PropertyModel) -> BilingualModel {
    BilingualModel {
        en: n.label + "."@ + p.name + " required-binding enforcement"@,
        ko: n.label + "."@ + p.name + " — 필수 바인딩 자동 적용"@,
    }
}

/// Rationale of a rule derived from a binding.
pub open spec fn binding_rationale(n: NodeModel, p: PropertyModel) -> BilingualModel {
    BilingualModel {
        en: "Auto-derived enforcement of the Required binding on `"@ + n.label + "."@ + p.name
            + "`."@,
        ko: "속성 `"@ + n.label + "."@ + p.name + "` 의 Required 바인딩에서 자동 파생된 강제 규칙입니다."@,
    }
}

/// Rationale of a rule derived from `nullable = false`.
pub open spec fn nullable_rationale(n: NodeModel, p: PropertyModel) -> BilingualModel {
    BilingualModel {
        en: "Auto-derived enforcement of `nullable=false` on `"@ + n.label + "."@ + p.name + "`."@,
        ko: "속성 `"@ + n.label + "."@ + p.name
            + "` 의 `nullable=false` 선언에서 자동 파생된 강제 규칙입니다."@,
    }
}

/// A derived property-shape rule with one constraint.
pub open spec fn derived_rule(
    n: NodeModel,
    p: PropertyModel,
    kind: Seq<char>,
    target: Seq<char>,
    c: ShaclModel,
    rationale: BilingualModel,
    valid_from: Option<i64>,
    valid_to: Option<i64>,
) -> RuleModel {
    RuleModel {
        id: DERIVED_BINDING_RULE_PREFIX@ + n.id + ":"@ + p.id + ":"@ + kind + target,
        name: derived_name(n, p),
        description: Seq::empty(),
        rationale,
        kind: RuleKindModel { tag: RuleKindTag::PropertyShape, first: n.id, second: p.id },
        severity: Severity::Violation,
        enforcement: EnforcementKind::Write,
        activation: None,
        origin: Some((n.id, p.id)),
        constraints: seq![c],
        valid_from,
        valid_to,
        sh_message: None,
    }
}

/// The rule a binding derives, if any: only `Required` value-set and
/// notation-pattern bindings derive one.
pub open spec fn binding_rule(n: NodeModel, p: PropertyModel, b: BindingModel) -> Option<RuleModel> {
    if b.strength == BindingStrength::Required && b.kind == BindingKind::ValueSet {
        Some(
            derived_rule(
                n,
                p,
                "value_set:"@,
                b.id,
                inherit_constraint(ConstraintKind::InValueSet, 0, b.id),
                binding_rationale(n, p),
                b.valid_from,
                b.valid_to,
            ),
        )
    } else if b.strength == BindingStrength::Required && b.kind == BindingKind::NotationPattern {
        Some(
            derived_rule(
                n,
                p,
                "notation_pattern:"@,
                b.id,
                inherit_constraint(ConstraintKind::MatchesPattern, 0, b.id),
                binding_rationale(n, p),
                b.valid_from,
                b.valid_to,
            ),
        )
    } else {
        None
    }
}

/// The rule `nullable = false` derives.
pub open spec fn nullable_rule(n: NodeModel, p: PropertyModel) -> Option<RuleModel> {
    if p.nullable {
        None
    } else {
        Some(
            derived_rule(
                n,
                p,
                "nullable"@,
                ""@,
                inherit_constraint(ConstraintKind::MinCount, 1, Seq::empty()),
                nullable_rationale(n, p),
                None,
                None,
            ),
        )
    }
}

/// The property a constraint of a rule actually enforces against.
pub open spec fn effective_target(r: RuleModel, c: ShaclModel) -> Option<(Seq<char>, Seq<char>)> {
    match c.target {
        None => None,
        Some(t) => if t.kind == TargetKind::Inherit {
            if r.kind.tag == RuleKindTag::PropertyShape {
                Some((r.kind.first, r.kind.second))
            } else {
                None
            }
        } else if t.kind == TargetKind::Property {
            Some((t.node_type_id, t.property_id))
        } else {
            None
        },
    }
}

/// Constraint `j` of rule `i` enforces signature triple `t` (among
/// authored rules only, when `only_authored`).
pub open spec fn sig_at(
    rules: Seq<RuleModel>,
    only_authored: bool,
    i: int,
    j: int,
    t: TripleModel,
) -> bool {
    &&& 0 <= i < rules.len()
    &&& (only_authored ==> rules[i].origin is None)
    &&& 0 <= j < rules[i].constraints.len()
    &&& effective_target(rules[i], rules[i].constraints[j]) == Some((t.0, t.1))
    &&& signature_of(rules[i].constraints[j]) == Some(t.2)
}

/// Some rule enforces signature triple `t`.
pub open spec fn has_signature(rules: Seq<RuleModel>, only_authored: bool, t: TripleModel) -> bool {
    exists|i: int, j: int| #[trigger] sig_at(rules, only_authored, i, j, t)
}

/// An authored rule already enforces one of the rule's signatures.
pub open spec fn redundant(r: RuleModel, authored: Seq<RuleModel>) -> bool {
    exists|j: int|
        0 <= j < r.constraints.len() && match (
            effective_target(r, #[trigger] r.constraints[j]),
            signature_of(r.constraints[j]),
        ) {
            (Some(np), Some(sig)) => has_signature(authored, true, (np.0, np.1, sig)),
            _ => false,
        }
}

// ---------------------------------------------------------------------------
// Building one rule
// ---------------------------------------------------------------------------

/// The rule id: prefix, node id, property id and target suffix.
fn derived_id(node: &NodeTypeDef, prop: &PropertyDef, kind: &str, target: &str) -> (r: String)
    ensures
        r@ == DERIVED_BINDING_RULE_PREFIX@ + node@.id + ":"@ + prop@.id + ":"@ + kind@ + target@,
{
    let mut id = String::from_str(DERIVED_BINDING_RULE_PREFIX);
    id.append(node.id.as_str());
    id.append(":");
    id.append(prop.id.as_str());
    id.append(":");
    id.append(kind);
    id.append(target);
    id
}

fn derived_rule_name(node: &NodeTypeDef, prop: &PropertyDef) -> (r: Bilingual)
    ensures
        r@ == derived_name(node@, prop@),
{
    let mut en = node.label.clone();
    en.append(".");
    en.append(prop.name.as_str());
    en.append(" required-binding enforcement");
    let mut ko = node.label.clone();
    ko.append(".");
    ko.append(prop.name.as_str());
    ko.append(" — 필수 바인딩 자동 적용");
    Bilingual { en, ko }
}

fn binding_rationale_of(node: &NodeTypeDef, prop: &PropertyDef) -> (r: Bilingual)
    ensures
        r@ == binding_rationale(node@, prop@),
{
    let mut en = String::from_str("Auto-derived enforcement of the Required binding on `");
    en.append(node.label.as_str());
    en.append(".");
    en.append(prop.name.as_str());
    en.append("`.");
    let mut ko = String::from_str("속성 `");
    ko.append(node.label.as_str());
    ko.append(".");
    ko.append(prop.name.as_str());
    ko.append("` 의 Required 바인딩에서 자동 파생된 강제 규칙입니다.");
    Bilingual { en, ko }
}

fn nullable_rationale_of(node: &NodeTypeDef, prop: &PropertyDef) -> (r: Bilingual)
    ensures
        r@ == nullable_rationale(node@, prop@),
{
    let mut en = String::from_str("Auto-derived enforcement of `nullable=false` on `");
    en.append(node.label.as_str());
    en.append(".");
    en.append(prop.name.as_str());
    en.append("`.");
    let mut ko = String::from_str("속성 `");
    ko.append(node.label.as_str());
    ko.append(".");
    ko.append(prop.name.as_str());
    ko.append("` 의 `nullable=false` 선언에서 자동 파생된 강제 규칙입니다.");
    Bilingual { en, ko }
}

fn make_rule(
    node: &NodeTypeDef,
    prop: &PropertyDef,
    id: String,
    constraint: ShaclConstraint,
    rationale: Bilingual,
    valid_from: Option<i64>,
    valid_to: Option<i64>,
) -> (r: RuleDef)
    ensures
        r@.id == id@,
        r@.name == derived_name(node@, prop@),
        r@.description == Seq::<char>::empty(),
        r@.rationale == rationale@,
        r@.kind == (RuleKindModel {
            tag: RuleKindTag::PropertyShape,
            first: node@.id,
            second: prop@.id,
        }),
        r@.severity == Severity::Violation,
        r@.enforcement == EnforcementKind::Write,
        r@.activation is None,
        r@.origin == Some((node@.id, prop@.id)),
        r@.constraints == seq![constraint@],
        r@.valid_from == valid_from,
        r@.valid_to == valid_to,
        r@.sh_message is None,
{
    let mut constraints: Vec<ShaclConstraint> = Vec::new();
    constraints.push(constraint);
    let r = RuleDef {
        id,
        name: derived_rule_name(node, prop),
        description: String::new(),
        rationale,
        kind: RuleKind::PropertyShape {
            target_node_type_id: node.id.clone(),
            target_property_id: prop.id.clone(),
        },
        severity: Severity::Violation,
        enforcement: EnforcementKind::Write,
        activation: RuleActivationKind::Always,
        origin: RuleOrigin::DerivedFromBinding {
            node_type_id: node.id.clone(),
            property_id: prop.id.clone(),
        },
        constraints,
        valid_from,
        valid_to,
        sh_message: None,
    };
    assert(models(r.constraints@) =~= seq![constraint@]);
    r
}

/// The rule a `Required` value-set or notation-pattern binding derives.
fn derive_binding_rule(node: &NodeTypeDef, prop: &PropertyDef, binding: &PropertyBinding) -> (r:
    Option<RuleDef>)
    ensures
        match r {
            Some(rule) => binding_rule(node@, prop@, binding@) == Some(rule@),
            None => binding_rule(node@, prop@, binding@) is None,
        },
{
    match binding {
        PropertyBinding::ValueSet {
            id,
            strength: BindingStrength::Required,
            valid_from,
            valid_to,
            ..
        } => {
            let rule_id = derived_id(node, prop, "value_set:", id.as_str());
            let c = ShaclConstraint::InValueSet {
                target: ConstraintTarget::Inherit,
                value_set_id: id.clone(),
            };
            let r = make_rule(
                node,
                prop,
                rule_id,
                c,
                binding_rationale_of(node, prop),
                *valid_from,
                *valid_to,
            );
            assert(r@ == binding_rule(node@, prop@, binding@).unwrap());
            Some(r)
        },
        PropertyBinding::NotationPattern {
            id,
            strength: BindingStrength::Required,
            valid_from,
            valid_to,
        } => {
            let rule_id = derived_id(node, prop, "notation_pattern:", id.as_str());
            let c = ShaclConstraint::MatchesPattern {
                target: ConstraintTarget::Inherit,
                notation_pattern_id: id.clone(),
            };
            let r = make_rule(
                node,
                prop,
                rule_id,
                c,
                binding_rationale_of(node, prop),
                *valid_from,
                *valid_to,
            );
            assert(r@ == binding_rule(node@, prop@, binding@).unwrap());
            Some(r)
        },
        _ => None,
    }
}

/// The `MinCount = 1` rule a non-nullable property derives.
fn derive_nullable_rule(node: &NodeTypeDef, prop: &PropertyDef) -> (r: Option<RuleDef>)
    ensures
        match r {
            Some(rule) => nullable_rule(node@, prop@) == Some(rule@),
            None => nullable_rule(node@, prop@) is None,
        },
{
    if prop.nullable {
        return None;
    }
    let rule_id = derived_id(node, prop, "nullable", "");
    let c = ShaclConstraint::MinCount { target: ConstraintTarget::Inherit, min: 1 };
    let r = make_rule(node, prop, rule_id, c, nullable_rationale_of(node, prop), None, None);
    assert(r@ == nullable_rule(node@, prop@).unwrap());
    Some(r)
}

// ---------------------------------------------------------------------------
// Signatures
// ---------------------------------------------------------------------------

/// Some constraint before position `(i, j)` (rules in order, then their
/// constraints in order) enforces `t`.
pub open spec fn sig_before(
    rules: Seq<RuleModel>,
    only_authored: bool,
    i: int,
    j: int,
    t: TripleModel,
) -> bool {
    exists|a: int, b: int|
        (a < i || (a == i && b < j)) && #[trigger] sig_at(rules, only_authored, a, b, t)
}

/// The property a constraint of a rule enforces against.
fn effective_property_target(rule: &RuleDef, c: &ShaclConstraint) -> (r: Option<(String, String)>)
    ensures
        match r {
            Some(np) => effective_target(rule@, c@) == Some((np.0@, np.1@)),
            None => effective_target(rule@, c@) is None,
        },
{
    match c.target() {
        None => None,
        Some(ConstraintTarget::Inherit) => match &rule.kind {
            RuleKind::PropertyShape { target_node_type_id, target_property_id } => Some(
                (target_node_type_id.clone(), target_property_id.clone()),
            ),
            _ => None,
        },
        Some(ConstraintTarget::Property { node_type_id, property_id }) => Some(
            (node_type_id.clone(), property_id.clone()),
        ),
        Some(_) => None,
    }
}

/// Equality of signatures.
fn same_signature(a: &ConstraintSignature, b: &ConstraintSignature) -> (r: bool)
    ensures
        r == (a@ == b@),
{
    match (a, b) {
        (ConstraintSignature::MinCount, ConstraintSignature::MinCount) => true,
        (ConstraintSignature::MaxCount, ConstraintSignature::MaxCount) => true,
        (
            ConstraintSignature::InValueSet { value_set_id: x },
            ConstraintSignature::InValueSet { value_set_id: y },
        ) => str_equal(x.as_str(), y.as_str()),
        (
            ConstraintSignature::MatchesPattern { notation_pattern_id: x },
            ConstraintSignature::MatchesPattern { notation_pattern_id: y },
        ) => str_equal(x.as_str(), y.as_str()),
        _ => false,
    }
}

/// Whether the triple `(n, p, sig)` is in the list.
fn triple_in(v: &Vec<SignatureTriple>, n: &str, p: &str, sig: &ConstraintSignature) -> (r: bool)
    ensures
        r == models(v@).contains((n@, p@, sig@)),
{
    let ghost t = (n@, p@, sig@);
    let mut i: usize = 0;
    while i < v.len()
        invariant
            i <= v.len(),
            t == (n@, p@, sig@),
            forall|k: int| 0 <= k < i ==> models(v@)[k] != t,
        decreases v.len() - i,
    {
        let e = &v[i];
        if str_equal(e.0.as_str(), n) && str_equal(e.1.as_str(), p) && same_signature(&e.2, sig) {
            assert(models(v@)[i as int] == t);
            return true;
        }
        assert(models(v@)[i as int] == v@[i as int]@);
        i = i + 1;
    }
    false
}

/// The signature triples the rules enforce (authored rules only, when
/// `only_authored`), each once.
fn collect_signatures(rules: &Vec<RuleDef>, only_authored: bool) -> (r: Vec<SignatureTriple>)
    ensures
        models(r@).no_duplicates(),
        forall|t: TripleModel|
            models(r@).contains(t) <==> has_signature(models(rules@), only_authored, t),
{
    let ghost rs = models(rules@);
    let mut out: Vec<SignatureTriple> = Vec::new();
    let n = rules.len();
    let mut i: usize = 0;
    while i < n
        invariant
            n == rules.len(),
            rs == models(rules@),
            i <= n,
            models(out@).no_duplicates(),
            forall|t: TripleModel| models(out@).contains(t) <==> sig_before(rs, only_authored, i as int, 0, t),
        decreases n - i,
    {
        let rule = &rules[i];
        let skip = only_authored && match rule.origin {
            RuleOrigin::Authored => false,
            _ => true,
        };
        let m = rule.constraints.len();
        if skip {
            proof {
                assert forall|t: TripleModel| sig_before(rs, only_authored, i + 1, 0, t) implies sig_before(
                    rs,
                    only_authored,
                    i as int,
                    0,
                    t,
                ) by {
                    let (a, b) = choose|a: int, b: int|
                        (a < i + 1 || (a == i + 1 && b < 0)) && #[trigger] sig_at(rs, only_authored, a, b, t);
                    assert(a != i);
                    assert(sig_at(rs, only_authored, a, b, t));
                }
                assert forall|t: TripleModel| sig_before(rs, only_authored, i as int, 0, t) implies sig_before(
                    rs,
                    only_authored,
                    i + 1,
                    0,
                    t,
                ) by {
                    let (a, b) = choose|a: int, b: int|
                        (a < i || (a == i && b < 0)) && #[trigger] sig_at(rs, only_authored, a, b, t);
                    assert(sig_at(rs, only_authored, a, b, t));
                }
            }
        } else {
            let mut j: usize = 0;
            while j < m
                invariant
                    n == rules.len(),
                    rs == models(rules@),
                    i < n,
                    m == rules@[i as int].constraints.len(),
                    rs[i as int] == rules@[i as int]@,
                    !(only_authored && !(rs[i as int].origin is None)),
                    j <= m,
                    models(out@).no_duplicates(),
                    forall|t: TripleModel|
                        models(out@).contains(t) <==> sig_before(rs, only_authored, i as int, j as int, t),
                decreases m - j,
            {
                let c = &rules[i].constraints[j];
                let ghost cm = rs[i as int].constraints[j as int];
                assert(cm == c@);
                let target = effective_property_target(&rules[i], c);
                let sig = c.signature();
                let ghost before = models(out@);
                match (target, sig) {
                    (Some(np), Some(sg)) => {
                        let ghost t0 = (np.0@, np.1@, sg@);
                        assert(sig_at(rs, only_authored, i as int, j as int, t0));
                        if !triple_in(&out, np.0.as_str(), np.1.as_str(), &sg) {
                            out.push((np.0, np.1, sg));
                            proof {
                                assert(models(out@) =~= before.push(t0));
                                assert forall|a: int, b: int|
                                    0 <= a < models(out@).len() && 0 <= b < models(out@).len()
                                        && a != b implies models(out@)[a] != models(out@)[b] by {
                                    if a < before.len() && b < before.len() {
                                        assert(before[a] != before[b]);
                                    } else if a == before.len() {
                                        assert(before.contains(before[b]));
                                    } else {
                                        assert(before.contains(before[a]));
                                    }
                                }
                            }
                        }
                        proof {
                            if models(out@).len() > before.len() {
                                assert(models(out@)[before.len() as int] == t0);
                            }
                            assert(models(out@).contains(t0));
                            assert forall|t: TripleModel| #[trigger] models(out@).contains(t) <==> sig_before(
                                rs,
                                only_authored,
                                i as int,
                                j + 1,
                                t,
                            ) by {
                                if sig_before(rs, only_authored, i as int, j + 1, t) {
                                    let (a, b) = choose|a: int, b: int|
                                        (a < i || (a == i && b < j + 1)) && #[trigger] sig_at(
                                            rs,
                                            only_authored,
                                            a,
                                            b,
                                            t,
                                        );
                                    if a == i && b == j {
                                        assert(t == t0);
                                        assert(models(out@).contains(t0));
                                    } else {
                                        assert(sig_before(rs, only_authored, i as int, j as int, t));
                                        assert(before.contains(t));
                                        let k = choose|k: int| 0 <= k < before.len() && before[k] == t;
                                        assert(models(out@)[k] == t);
                                    }
                                }
                                if models(out@).contains(t) {
                                    if t == t0 {
                                    } else {
                                        let k = choose|k: int| 0 <= k < models(out@).len() && models(out@)[k] == t;
                                        assert(k < before.len());
                                        assert(before.contains(t));
                                        assert(sig_before(rs, only_authored, i as int, j as int, t));
                                        let (a, b) = choose|a: int, b: int|
                                            (a < i || (a == i && b < j)) && #[trigger] sig_at(
                                                rs,
                                                only_authored,
                                                a,
                                                b,
                                                t,
                                            );
                                        assert(sig_at(rs, only_authored, a, b, t));
                                    }
                                }
                            }
                        }
                    },
                    _ => {
                        proof {
                            assert forall|t: TripleModel| #[trigger] models(out@).contains(t) <==> sig_before(
                                rs,
                                only_authored,
                                i as int,
                                j + 1,
                                t,
                            ) by {
                                if sig_before(rs, only_authored, i as int, j + 1, t) {
                                    let (a, b) = choose|a: int, b: int|
                                        (a < i || (a == i && b < j + 1)) && #[trigger] sig_at(
                                            rs,
                                            only_authored,
                                            a,
                                            b,
                                            t,
                                        );
                                    assert(!(a == i && b == j));
                                    assert(sig_before(rs, only_authored, i as int, j as int, t));
                                }
                                if sig_before(rs, only_authored, i as int, j as int, t) {
                                    let (a, b) = choose|a: int, b: int|
                                        (a < i || (a == i && b < j)) && #[trigger] sig_at(
                                            rs,
                                            only_authored,
                                            a,
                                            b,
                                            t,
                                        );
                                    assert(sig_at(rs, only_authored, a, b, t));
                                }
                            }
                        }
                    },
                }
                j = j + 1;
            }
            proof {
                assert forall|t: TripleModel| sig_before(rs, only_authored, i + 1, 0, t) == sig_before(
                    rs,
                    only_authored,
                    i as int,
                    m as int,
                    t,
                ) by {
                    if sig_before(rs, only_authored, i + 1, 0, t) {
                        let (a, b) = choose|a: int, b: int|
                            (a < i + 1 || (a == i + 1 && b < 0)) && #[trigger] sig_at(rs, only_authored, a, b, t);
                        assert(sig_at(rs, only_authored, a, b, t));
                    }
                    if sig_before(rs, only_authored, i as int, m as int, t) {
                        let (a, b) = choose|a: int, b: int|
                            (a < i || (a == i && b < m)) && #[trigger] sig_at(rs, only_authored, a, b, t);
                        assert(sig_at(rs, only_authored, a, b, t));
                    }
                }
            }
        }
        i = i + 1;
    }
    proof {
        assert forall|t: TripleModel| sig_before(rs, only_authored, n as int, 0, t) == has_signature(
            rs,
            only_authored,
            t,
        ) by {
            if has_signature(rs, only_authored, t) {
                let (a, b) = choose|a: int, b: int| #[trigger] sig_at(rs, only_authored, a, b, t);
                assert(sig_at(rs, only_authored, a, b, t));
            }
            if sig_before(rs, only_authored, n as int, 0, t) {
                let (a, b) = choose|a: int, b: int|
                    (a < n || (a == n && b < 0)) && #[trigger] sig_at(rs, only_authored, a, b, t);
                assert(sig_at(rs, only_authored, a, b, t));
            }
        }
    }
    out
}

// ---------------------------------------------------------------------------
// The derived rule sets
// ---------------------------------------------------------------------------

/// A derivation, unless an authored rule already covers it.
pub open spec fn keep_unless_redundant(r: Option<RuleModel>, rules: Seq<RuleModel>) -> Seq<RuleModel> {
    match r {
        Some(x) => if redundant(x, rules) {
            Seq::empty()
        } else {
            seq![x]
        },
        None => Seq::empty(),
    }
}

/// Binding derivations of one property, binding by binding.
pub open spec fn binding_rules_for(
    n: NodeModel,
    p: PropertyModel,
    bs: Seq<BindingModel>,
    rules: Seq<RuleModel>,
) -> Seq<RuleModel>
    decreases bs.len(),
{
    if bs.len() == 0 {
        Seq::empty()
    } else {
        binding_rules_for(n, p, bs.subrange(0, bs.len() - 1), rules) + keep_unless_redundant(
            binding_rule(n, p, bs[bs.len() - 1]),
            rules,
        )
    }
}

/// Binding derivations of a node type, property by property.
pub open spec fn binding_rules_of_props(n: NodeModel, ps: Seq<PropertyModel>, rules: Seq<RuleModel>) -> Seq<
    RuleModel,
>
    decreases ps.len(),
{
    if ps.len() == 0 {
        Seq::empty()
    } else {
        binding_rules_of_props(n, ps.subrange(0, ps.len() - 1), rules) + binding_rules_for(
            n,
            ps[ps.len() - 1],
            ps[ps.len() - 1].bindings,
            rules,
        )
    }
}

/// Binding derivations of node types, type by type.
pub open spec fn binding_rules_of_nodes(ns: Seq<NodeModel>, rules: Seq<RuleModel>) -> Seq<RuleModel>
    decreases ns.len(),
{
    if ns.len() == 0 {
        Seq::empty()
    } else {
        binding_rules_of_nodes(ns.subrange(0, ns.len() - 1), rules) + binding_rules_of_props(
            ns[ns.len() - 1],
            ns[ns.len() - 1].properties,
            rules,
        )
    }
}

/// Nullable derivations of a node type, property by property.
pub open spec fn nullable_rules_of_props(n: NodeModel, ps: Seq<PropertyModel>, rules: Seq<RuleModel>) -> Seq<
    RuleModel,
>
    decreases ps.len(),
{
    if ps.len() == 0 {
        Seq::empty()
    } else {
        nullable_rules_of_props(n, ps.subrange(0, ps.len() - 1), rules) + keep_unless_redundant(
            nullable_rule(n, ps[ps.len() - 1]),
            rules,
        )
    }
}

/// Nullable derivations of node types, type by type.
pub open spec fn nullable_rules_of_nodes(ns: Seq<NodeModel>, rules: Seq<RuleModel>) -> Seq<RuleModel>
    decreases ns.len(),
{
    if ns.len() == 0 {
        Seq::empty()
    } else {
        nullable_rules_of_nodes(ns.subrange(0, ns.len() - 1), rules) + nullable_rules_of_props(
            ns[ns.len() - 1],
            ns[ns.len() - 1].properties,
            rules,
        )
    }
}

/// The binding-axis rules of an ontology.
pub open spec fn binding_rules(m: OntologyModel) -> Seq<RuleModel> {
    binding_rules_of_nodes(m.node_types, m.rules)
}

/// The nullable-axis rules of an ontology.
pub open spec fn nullable_rules(m: OntologyModel) -> Seq<RuleModel> {
    nullable_rules_of_nodes(m.node_types, m.rules)
}

/// The full safety-net set.
pub open spec fn implicit_rules(m: OntologyModel) -> Seq<RuleModel> {
    binding_rules(m) + nullable_rules(m)
}

/// Whether an authored rule already enforces one of the rule's
/// signatures; `authored` holds the authored signature triples.
fn rule_redundant_with_authored(rule: &RuleDef, authored: &Vec<SignatureTriple>, Ghost(rules): Ghost<Seq<RuleModel>>) -> (r:
    bool)
    requires
        forall|t: TripleModel| models(authored@).contains(t) <==> has_signature(rules, true, t),
    ensures
        r == redundant(rule@, rules),
{
    let m = rule.constraints.len();
    let mut j: usize = 0;
    while j < m
        invariant
            m == rule.constraints.len(),
            j <= m,
            forall|t: TripleModel| models(authored@).contains(t) <==> has_signature(rules, true, t),
            forall|b: int|
                0 <= b < j ==> !match (
                    effective_target(rule@, #[trigger] rule@.constraints[b]),
                    signature_of(rule@.constraints[b]),
                ) {
                    (Some(np), Some(sig)) => has_signature(rules, true, (np.0, np.1, sig)),
                    _ => false,
                },
        decreases m - j,
    {
        let c = &rule.constraints[j];
        assert(rule@.constraints[j as int] == c@);
        match (effective_property_target(rule, c), c.signature()) {
            (Some(np), Some(sig)) => {
                if triple_in(authored, np.0.as_str(), np.1.as_str(), &sig) {
                    return true;
                }
            },
            _ => {},
        }
        j = j + 1;
    }
    false
}

fn push_unless_redundant(
    out: &mut Vec<RuleDef>,
    r: Option<RuleDef>,
    authored: &Vec<SignatureTriple>,
    Ghost(rules): Ghost<Seq<RuleModel>>,
)
    requires
        forall|t: TripleModel| models(authored@).contains(t) <==> has_signature(rules, true, t),
    ensures
        models(final(out)@) == models(old(out)@) + keep_unless_redundant(
            match r {
                Some(x) => Some(x@),
                None => None,
            },
            rules,
        ),
{
    match r {
        Some(rule) => {
            if !rule_redundant_with_authored(&rule, authored, Ghost(rules)) {
                let ghost before = out@;
                out.push(rule);
                assert(models(out@) =~= models(before) + seq![rule@]);
            } else {
                assert(models(out@) =~= models(out@) + Seq::<RuleModel>::empty());
            }
        },
        None => {
            assert(models(out@) =~= models(out@) + Seq::<RuleModel>::empty());
        },
    }
}

fn binding_rules_of_property(
    node: &NodeTypeDef,
    prop: &PropertyDef,
    authored: &Vec<SignatureTriple>,
    Ghost(rules): Ghost<Seq<RuleModel>>,
) -> (r: Vec<RuleDef>)
    requires
        forall|t: TripleModel| models(authored@).contains(t) <==> has_signature(rules, true, t),
    ensures
        models(r@) == binding_rules_for(node@, prop@, prop@.bindings, rules),
{
    let ghost bs = prop@.bindings;
    let mut out: Vec<RuleDef> = Vec::new();
    let mut k: usize = 0;
    while k < prop.bindings.len()
        invariant
            k <= prop.bindings.len(),
            bs == prop@.bindings,
            bs.len() == prop.bindings.len(),
            forall|t: TripleModel| models(authored@).contains(t) <==> has_signature(rules, true, t),
            models(out@) == binding_rules_for(node@, prop@, bs.subrange(0, k as int), rules),
        decreases prop.bindings.len() - k,
    {
        proof {
            let next = bs.subrange(0, k + 1);
            assert(next.subrange(0, k as int) =~= bs.subrange(0, k as int));
            assert(next[k as int] == bs[k as int]);
            assert(bs[k as int] == prop.bindings@[k as int]@);
        }
        let r = derive_binding_rule(node, prop, &prop.bindings[k]);
        push_unless_redundant(&mut out, r, authored, Ghost(rules));
        k = k + 1;
    }
    proof {
        assert(bs.subrange(0, bs.len() as int) =~= bs);
    }
    out
}

fn binding_rules_of_node(node: &NodeTypeDef, authored: &Vec<SignatureTriple>, Ghost(rules): Ghost<Seq<RuleModel>>) -> (r:
    Vec<RuleDef>)
    requires
        forall|t: TripleModel| models(authored@).contains(t) <==> has_signature(rules, true, t),
    ensures
        models(r@) == binding_rules_of_props(node@, node@.properties, rules),
{
    let ghost ps = node@.properties;
    let mut out: Vec<RuleDef> = Vec::new();
    let mut k: usize = 0;
    while k < node.properties.len()
        invariant
            k <= node.properties.len(),
            ps == node@.properties,
            ps.len() == node.properties.len(),
            forall|t: TripleModel| models(authored@).contains(t) <==> has_signature(rules, true, t),
            models(out@) == binding_rules_of_props(node@, ps.subrange(0, k as int), rules),
        decreases node.properties.len() - k,
    {
        proof {
            let next = ps.subrange(0, k + 1);
            assert(next.subrange(0, k as int) =~= ps.subrange(0, k as int));
            assert(next[k as int] == ps[k as int]);
            assert(ps[k as int] == node.properties@[k as int]@);
        }
        let mut more = binding_rules_of_property(node, &node.properties[k], authored, Ghost(rules));
        let ghost before = out@;
        let ghost added = more@;
        out.append(&mut more);
        assert(models(out@) =~= models(before) + models(added));
        k = k + 1;
    }
    proof {
        assert(ps.subrange(0, ps.len() as int) =~= ps);
    }
    out
}

fn nullable_rules_of_node(node: &NodeTypeDef, authored: &Vec<SignatureTriple>, Ghost(rules): Ghost<Seq<RuleModel>>) -> (r:
    Vec<RuleDef>)
    requires
        forall|t: TripleModel| models(authored@).contains(t) <==> has_signature(rules, true, t),
    ensures
        models(r@) == nullable_rules_of_props(node@, node@.properties, rules),
{
    let ghost ps = node@.properties;
    let mut out: Vec<RuleDef> = Vec::new();
    let mut k: usize = 0;
    while k < node.properties.len()
        invariant
            k <= node.properties.len(),
            ps == node@.properties,
            ps.len() == node.properties.len(),
            forall|t: TripleModel| models(authored@).contains(t) <==> has_signature(rules, true, t),
            models(out@) == nullable_rules_of_props(node@, ps.subrange(0, k as int), rules),
        decreases node.properties.len() - k,
    {
        proof {
            let next = ps.subrange(0, k + 1);
            assert(next.subrange(0, k as int) =~= ps.subrange(0, k as int));
            assert(next[k as int] == ps[k as int]);
            assert(ps[k as int] == node.properties@[k as int]@);
        }
        let r = derive_nullable_rule(node, &node.properties[k]);
        push_unless_redundant(&mut out, r, authored, Ghost(rules));
        k = k + 1;
    }
    proof {
        assert(ps.subrange(0, ps.len() as int) =~= ps);
    }
    out
}

/// The shape every synthesised rule has: a write-enforced violation
/// that is always active, points back to its source, carries one
/// constraint and an id under [`DERIVED_BINDING_RULE_PREFIX`].
pub open spec fn is_derivation(r: RuleModel) -> bool {
    &&& r.severity == Severity::Violation
    &&& r.enforcement == EnforcementKind::Write
    &&& r.activation is None
    &&& r.origin is Some
    &&& r.constraints.len() == 1
    &&& r.id.len() >= DERIVED_BINDING_RULE_PREFIX@.len()
    &&& r.id.subrange(0, DERIVED_BINDING_RULE_PREFIX@.len() as int) == DERIVED_BINDING_RULE_PREFIX@
}

/// Every rule of `s` is a derivation that no authored rule of `rules`
/// already covers.
pub open spec fn all_safe(s: Seq<RuleModel>, rules: Seq<RuleModel>) -> bool {
    forall|i: int| 0 <= i < s.len() ==> !redundant(#[trigger] s[i], rules) && is_derivation(s[i])
}

proof fn lemma_all_safe_concat(a: Seq<RuleModel>, b: Seq<RuleModel>, rules: Seq<RuleModel>)
    requires
        all_safe(a, rules),
        all_safe(b, rules),
    ensures
        all_safe(a + b, rules),
{
    assert forall|i: int| 0 <= i < (a + b).len() implies !redundant(#[trigger] (a + b)[i], rules)
        && is_derivation((a + b)[i]) by {
        if i < a.len() {
            assert((a + b)[i] == a[i]);
        } else {
            assert((a + b)[i] == b[i - a.len()]);
        }
    }
}

proof fn lemma_derived_rule_shape(
    n: NodeModel,
    p: PropertyModel,
    kind: Seq<char>,
    target: Seq<char>,
    c: ShaclModel,
    rationale: BilingualModel,
    vf: Option<i64>,
    vt: Option<i64>,
)
    ensures
        is_derivation(derived_rule(n, p, kind, target, c, rationale, vf, vt)),
{
    let r = derived_rule(n, p, kind, target, c, rationale, vf, vt);
    let pre = DERIVED_BINDING_RULE_PREFIX@;
    assert(r.id.subrange(0, pre.len() as int) =~= pre);
}

proof fn lemma_keep_safe(r: Option<RuleModel>, rules: Seq<RuleModel>)
    requires
        r matches Some(x) ==> is_derivation(x),
    ensures
        all_safe(keep_unless_redundant(r, rules), rules),
{
}

proof fn lemma_binding_rules_for_safe(n: NodeModel, p: PropertyModel, bs: Seq<BindingModel>, rules: Seq<RuleModel>)
    ensures
        all_safe(binding_rules_for(n, p, bs, rules), rules),
    decreases bs.len(),
{
    if bs.len() > 0 {
        let b = bs[bs.len() - 1];
        lemma_binding_rules_for_safe(n, p, bs.subrange(0, bs.len() - 1), rules);
        lemma_derived_rule_shape(n, p, "value_set:"@, b.id, inherit_constraint(ConstraintKind::InValueSet, 0, b.id), binding_rationale(n, p), b.valid_from, b.valid_to);
        lemma_derived_rule_shape(n, p, "notation_pattern:"@, b.id, inherit_constraint(ConstraintKind::MatchesPattern, 0, b.id), binding_rationale(n, p), b.valid_from, b.valid_to);
        lemma_keep_safe(binding_rule(n, p, b), rules);
        lemma_all_safe_concat(
            binding_rules_for(n, p, bs.subrange(0, bs.len() - 1), rules),
            keep_unless_redundant(binding_rule(n, p, b), rules),
            rules,
        );
    }
}

proof fn lemma_binding_rules_of_props_safe(n: NodeModel, ps: Seq<PropertyModel>, rules: Seq<RuleModel>)
    ensures
        all_safe(binding_rules_of_props(n, ps, rules), rules),
    decreases ps.len(),
{
    if ps.len() > 0 {
        let p = ps[ps.len() - 1];
        lemma_binding_rules_of_props_safe(n, ps.subrange(0, ps.len() - 1), rules);
        lemma_binding_rules_for_safe(n, p, p.bindings, rules);
        lemma_all_safe_concat(
            binding_rules_of_props(n, ps.subrange(0, ps.len() - 1), rules),
            binding_rules_for(n, p, p.bindings, rules),
            rules,
        );
    }
}

proof fn lemma_binding_rules_of_nodes_safe(ns: Seq<NodeModel>, rules: Seq<RuleModel>)
    ensures
        all_safe(binding_rules_of_nodes(ns, rules), rules),
    decreases ns.len(),
{
    if ns.len() > 0 {
        let n = ns[ns.len() - 1];
        lemma_binding_rules_of_nodes_safe(ns.subrange(0, ns.len() - 1), rules);
        lemma_binding_rules_of_props_safe(n, n.properties, rules);
        lemma_all_safe_concat(
            binding_rules_of_nodes(ns.subrange(0, ns.len() - 1), rules),
            binding_rules_of_props(n, n.properties, rules),
            rules,
        );
    }
}

proof fn lemma_nullable_rules_of_props_safe(n: NodeModel, ps: Seq<PropertyModel>, rules: Seq<RuleModel>)
    ensures
        all_safe(nullable_rules_of_props(n, ps, rules), rules),
    decreases ps.len(),
{
    if ps.len() > 0 {
        let p = ps[ps.len() - 1];
        lemma_nullable_rules_of_props_safe(n, ps.subrange(0, ps.len() - 1), rules);
        lemma_derived_rule_shape(n, p, "nullable"@, ""@, inherit_constraint(ConstraintKind::MinCount, 1, Seq::empty()), nullable_rationale(n, p), None, None);
        lemma_keep_safe(nullable_rule(n, p), rules);
        lemma_all_safe_concat(
            nullable_rules_of_props(n, ps.subrange(0, ps.len() - 1), rules),
            keep_unless_redundant(nullable_rule(n, p), rules),
            rules,
        );
    }
}

proof fn lemma_nullable_rules_of_nodes_safe(ns: Seq<NodeModel>, rules: Seq<RuleModel>)
    ensures
        all_safe(nullable_rules_of_nodes(ns, rules), rules),
    decreases ns.len(),
{
    if ns.len() > 0 {
        let n = ns[ns.len() - 1];
        lemma_nullable_rules_of_nodes_safe(ns.subrange(0, ns.len() - 1), rules);
        lemma_nullable_rules_of_props_safe(n, n.properties, rules);
        lemma_all_safe_concat(
            nullable_rules_of_nodes(ns.subrange(0, ns.len() - 1), rules),
            nullable_rules_of_props(n, n.properties, rules),
            rules,
        );
    }
}

/// No derived rule duplicates what an authored rule already enforces,
/// and every derived rule is a write-enforced, always-active violation
/// with one constraint, its source recorded and its id under the
/// derived prefix.
pub proof fn lemma_implicit_rules_safe(m: OntologyModel)
    ensures
        all_safe(implicit_rules(m), m.rules),
{
    lemma_binding_rules_of_nodes_safe(m.node_types, m.rules);
    lemma_nullable_rules_of_nodes_safe(m.node_types, m.rules);
    lemma_all_safe_concat(binding_rules(m), nullable_rules(m), m.rules);
}

impl OntologyIR {
    /// Signature triples enforced by authored rules, keyed by the
    /// property each constraint effectively targets; each once.
    pub fn authored_constraint_signatures(&self) -> (r: Vec<SignatureTriple>)
        ensures
            models(r@).no_duplicates(),
            forall|t: TripleModel| models(r@).contains(t) <==> has_signature(self@.rules, true, t),
    {
        collect_signatures(&self.rules, true)
    }

    /// Rules derived from `Required` value-set and notation-pattern
    /// bindings, node by node, property by property, binding by binding,
    /// minus those an authored rule already covers.
    pub fn derive_binding_rules(&self) -> (r: Vec<RuleDef>)
        ensures
            models(r@) == binding_rules(self@),
    {
        let authored = self.authored_constraint_signatures();
        let ghost rules = self@.rules;
        let ghost ns = self@.node_types;
        let mut out: Vec<RuleDef> = Vec::new();
        let mut i: usize = 0;
        while i < self.node_types.len()
            invariant
                i <= self.node_types.len(),
                ns == self@.node_types,
                ns.len() == self.node_types.len(),
                rules == self@.rules,
                forall|t: TripleModel| models(authored@).contains(t) <==> has_signature(rules, true, t),
                models(out@) == binding_rules_of_nodes(ns.subrange(0, i as int), rules),
            decreases self.node_types.len() - i,
        {
            proof {
                let next = ns.subrange(0, i + 1);
                assert(next.subrange(0, i as int) =~= ns.subrange(0, i as int));
                assert(next[i as int] == ns[i as int]);
                assert(ns[i as int] == self.node_types@[i as int]@);
            }
            let mut more = binding_rules_of_node(&self.node_types[i], &authored, Ghost(rules));
            let ghost before = out@;
            let ghost added = more@;
            out.append(&mut more);
            assert(models(out@) =~= models(before) + models(added));
            i = i + 1;
        }
        proof {
            assert(ns.subrange(0, ns.len() as int) =~= ns);
        }
        out
    }

    /// Rules derived from `nullable = false` (a `MinCount = 1` each),
    /// minus those an authored rule already covers.
    pub fn derive_nullable_rules(&self) -> (r: Vec<RuleDef>)
        ensures
            models(r@) == nullable_rules(self@),
    {
        let authored = self.authored_constraint_signatures();
        let ghost rules = self@.rules;
        let ghost ns = self@.node_types;
        let mut out: Vec<RuleDef> = Vec::new();
        let mut i: usize = 0;
        while i < self.node_types.len()
            invariant
                i <= self.node_types.len(),
                ns == self@.node_types,
                ns.len() == self.node_types.len(),
                rules == self@.rules,
                forall|t: TripleModel| models(authored@).contains(t) <==> has_signature(rules, true, t),
                models(out@) == nullable_rules_of_nodes(ns.subrange(0, i as int), rules),
            decreases self.node_types.len() - i,
        {
            proof {
                let next = ns.subrange(0, i + 1);
                assert(next.subrange(0, i as int) =~= ns.subrange(0, i as int));
                assert(next[i as int] == ns[i as int]);
                assert(ns[i as int] == self.node_types@[i as int]@);
            }
            let mut more = nullable_rules_of_node(&self.node_types[i], &authored, Ghost(rules));
            let ghost before = out@;
            let ghost added = more@;
            out.append(&mut more);
            assert(models(out@) =~= models(before) + models(added));
            i = i + 1;
        }
        proof {
            assert(ns.subrange(0, ns.len() as int) =~= ns);
        }
        out
    }

    /// The full safety-net set: binding-axis rules, then nullable-axis
    /// rules.
    pub fn derive_implicit_rules(&self) -> (r: Vec<RuleDef>)
        ensures
            models(r@) == implicit_rules(self@),
            models(r@) == binding_rules(self@) + nullable_rules(self@),
    {
        let mut out = self.derive_binding_rules();
        let mut more = self.derive_nullable_rules();
        let ghost before = out@;
        let ghost added = more@;
        out.append(&mut more);
        assert(models(out@) =~= models(before) + models(added));
        out
    }

    /// Signature triples enforced by the derived rules; each once.
    pub fn derived_constraint_signatures(&self) -> (r: Vec<SignatureTriple>)
        ensures
            models(r@).no_duplicates(),
            forall|t: TripleModel|
                models(r@).contains(t) <==> has_signature(implicit_rules(self@), false, t),
    {
        let rules = self.derive_implicit_rules();
        collect_signatures(&rules, false)
    }
}

/// Derived and authored signatures are disjoint: no signature triple a
/// derived rule enforces is one an authored rule already enforces.
pub proof fn lemma_derived_signatures_not_authored(m: OntologyModel, t: TripleModel)
    requires
        has_signature(implicit_rules(m), false, t),
    ensures
        !has_signature(m.rules, true, t),
{
    lemma_implicit_rules_safe(m);
    let rs = implicit_rules(m);
    let (i, j) = choose|i: int, j: int| #[trigger] sig_at(rs, false, i, j, t);
    assert(!redundant(rs[i], m.rules));
    assert(match (effective_target(rs[i], rs[i].constraints[j]), signature_of(rs[i].constraints[j])) {
        (Some(np), Some(sig)) => has_signature(m.rules, true, (np.0, np.1, sig)),
        _ => false,
    } == has_signature(m.rules, true, t));
}

proof fn lemma_in_concat_left(a: Seq<RuleModel>, b: Seq<RuleModel>, x: RuleModel)
    requires
        a.contains(x),
    ensures
        (a + b).contains(x),
{
    let k = choose|k: int| 0 <= k < a.len() && a[k] == x;
    assert((a + b)[k] == x);
}

proof fn lemma_in_concat_right(a: Seq<RuleModel>, b: Seq<RuleModel>, x: RuleModel)
    requires
        b.contains(x),
    ensures
        (a + b).contains(x),
{
    let k = choose|k: int| 0 <= k < b.len() && b[k] == x;
    assert((a + b)[a.len() + k] == x);
}

/// A rule kept for property `j` is among the nullable rules of the run
/// of properties.
proof fn lemma_nullable_of_props_contains(n: NodeModel, ps: Seq<PropertyModel>, rules: Seq<RuleModel>, j: int, x: RuleModel)
    requires
        0 <= j < ps.len(),
        keep_unless_redundant(nullable_rule(n, ps[j]), rules).contains(x),
    ensures
        nullable_rules_of_props(n, ps, rules).contains(x),
    decreases ps.len(),
{
    let init = ps.subrange(0, ps.len() - 1);
    if j < ps.len() - 1 {
        assert(init[j] == ps[j]);
        lemma_nullable_of_props_contains(n, init, rules, j, x);
        lemma_in_concat_left(
            nullable_rules_of_props(n, init, rules),
            keep_unless_redundant(nullable_rule(n, ps[ps.len() - 1]), rules),
            x,
        );
    } else {
        lemma_in_concat_right(nullable_rules_of_props(n, init, rules), keep_unless_redundant(nullable_rule(n, ps[j]), rules), x);
    }
}

/// A rule kept for node type `i` is among the nullable rules of the run
/// of node types.
proof fn lemma_nullable_of_nodes_contains(ns: Seq<NodeModel>, rules: Seq<RuleModel>, i: int, x: RuleModel)
    requires
        0 <= i < ns.len(),
        nullable_rules_of_props(ns[i], ns[i].properties, rules).contains(x),
    ensures
        nullable_rules_of_nodes(ns, rules).contains(x),
    decreases ns.len(),
{
    let init = ns.subrange(0, ns.len() - 1);
    if i < ns.len() - 1 {
        assert(init[i] == ns[i]);
        lemma_nullable_of_nodes_contains(init, rules, i, x);
        lemma_in_concat_left(
            nullable_rules_of_nodes(init, rules),
            nullable_rules_of_props(ns[ns.len() - 1], ns[ns.len() - 1].properties, rules),
            x,
        );
    } else {
        lemma_in_concat_right(nullable_rules_of_nodes(init, rules), nullable_rules_of_props(ns[i], ns[i].properties, rules), x);
    }
}

/// The signature a `MinCount` constraint enforces.
pub open spec fn min_count_signature() -> SignatureModel {
    SignatureModel { kind: ConstraintKind::MinCount, reference: Seq::empty() }
}

/// A property that is not nullable, and on which no authored rule
/// enforces a minimum count, gets its derived `MinCount = 1` rule.
pub proof fn lemma_nullable_rule_derived(m: OntologyModel, i: int, j: int)
    requires
        0 <= i < m.node_types.len(),
        0 <= j < m.node_types[i].properties.len(),
        !m.node_types[i].properties[j].nullable,
        !has_signature(
            m.rules,
            true,
            (m.node_types[i].id, m.node_types[i].properties[j].id, min_count_signature()),
        ),
    ensures
        nullable_rule(m.node_types[i], m.node_types[i].properties[j]) is Some,
        nullable_rules(m).contains(nullable_rule(m.node_types[i], m.node_types[i].properties[j]).unwrap()),
{
    let n = m.node_types[i];
    let p = n.properties[j];
    let r = nullable_rule(n, p).unwrap();
    assert(r.constraints.len() == 1);
    assert(effective_target(r, r.constraints[0]) == Some((n.id, p.id)));
    assert(signature_of(r.constraints[0]) == Some(min_count_signature()));
    assert(!redundant(r, m.rules));
    assert(keep_unless_redundant(nullable_rule(n, p), m.rules) == seq![r]);
    assert(seq![r][0] == r);
    lemma_nullable_of_props_contains(n, n.properties, m.rules, j, r);
    lemma_nullable_of_nodes_contains(m.node_types, m.rules, i, r);
}

proof fn lemma_in_concat_split(a: Seq<RuleModel>, b: Seq<RuleModel>, x: RuleModel)
    requires
        (a + b).contains(x),
    ensures
        a.contains(x) || b.contains(x),
{
    let k = choose|k: int| 0 <= k < (a + b).len() && (a + b)[k] == x;
    if k < a.len() {
        assert(a[k] == x);
    } else {
        assert(b[k - a.len()] == x);
    }
}

/// A kept nullable rule of property `p` is that property's rule, the
/// property is not nullable, and no authored rule enforces its minimum
/// count.
proof fn lemma_kept_nullable(n: NodeModel, p: PropertyModel, rules: Seq<RuleModel>, x: RuleModel)
    requires
        keep_unless_redundant(nullable_rule(n, p), rules).contains(x),
    ensures
        !p.nullable,
        nullable_rule(n, p) == Some(x),
        !has_signature(rules, true, (n.id, p.id, min_count_signature())),
{
    let r = nullable_rule(n, p).unwrap();
    assert(!redundant(r, rules));
    assert(seq![r][0] == r);
    if has_signature(rules, true, (n.id, p.id, min_count_signature())) {
        assert(effective_target(r, r.constraints[0]) == Some((n.id, p.id)));
        assert(signature_of(r.constraints[0]) == Some(min_count_signature()));
        assert(redundant(r, rules));
    }
}

/// Every nullable rule of a run of properties comes from one of them.
proof fn lemma_nullable_of_props_origin(n: NodeModel, ps: Seq<PropertyModel>, rules: Seq<RuleModel>, x: RuleModel)
    requires
        nullable_rules_of_props(n, ps, rules).contains(x),
    ensures
        exists|j: int|
            0 <= j < ps.len() && keep_unless_redundant(nullable_rule(n, #[trigger] ps[j]), rules).contains(x),
    decreases ps.len(),
{
    let init = ps.subrange(0, ps.len() - 1);
    let last = keep_unless_redundant(nullable_rule(n, ps[ps.len() - 1]), rules);
    lemma_in_concat_split(nullable_rules_of_props(n, init, rules), last, x);
    if nullable_rules_of_props(n, init, rules).contains(x) {
        lemma_nullable_of_props_origin(n, init, rules, x);
        let j = choose|j: int|
            0 <= j < init.len() && keep_unless_redundant(nullable_rule(n, #[trigger] init[j]), rules).contains(x);
        assert(init[j] == ps[j]);
    } else {
        assert(last.contains(x));
    }
}

/// Every nullable rule of a run of node types comes from one of them.
proof fn lemma_nullable_of_nodes_origin(ns: Seq<NodeModel>, rules: Seq<RuleModel>, x: RuleModel)
    requires
        nullable_rules_of_nodes(ns, rules).contains(x),
    ensures
        exists|i: int| 0 <= i < ns.len() && nullable_rules_of_props(#[trigger] ns[i], ns[i].properties, rules).contains(x),
    decreases ns.len(),
{
    let init = ns.subrange(0, ns.len() - 1);
    let last = nullable_rules_of_props(ns[ns.len() - 1], ns[ns.len() - 1].properties, rules);
    lemma_in_concat_split(nullable_rules_of_nodes(init, rules), last, x);
    if nullable_rules_of_nodes(init, rules).contains(x) {
        lemma_nullable_of_nodes_origin(init, rules, x);
        let i = choose|i: int| 0 <= i < init.len() && nullable_rules_of_props(#[trigger] init[i], init[i].properties, rules).contains(x);
        assert(init[i] == ns[i]);
    } else {
        assert(last.contains(x));
    }
}

/// Every nullable rule is the `MinCount = 1` rule of a property of a node
/// type that is not nullable and on which no authored rule enforces a
/// minimum count.
pub proof fn lemma_nullable_rule_origin(m: OntologyModel, x: RuleModel)
    requires
        nullable_rules(m).contains(x),
    ensures
        exists|i: int, j: int|
            0 <= i < m.node_types.len() && 0 <= j < m.node_types[i].properties.len()
                && !m.node_types[i].properties[j].nullable && #[trigger] nullable_rule(
                m.node_types[i],
                m.node_types[i].properties[j],
            ) == Some(x) && !has_signature(
                m.rules,
                true,
                (m.node_types[i].id, m.node_types[i].properties[j].id, min_count_signature()),
            ),
{
    lemma_nullable_of_nodes_origin(m.node_types, m.rules, x);
    let i = choose|i: int|
        0 <= i < m.node_types.len() && nullable_rules_of_props(#[trigger] m.node_types[i], m.node_types[i].properties, m.rules).contains(x);
    let n = m.node_types[i];
    lemma_nullable_of_props_origin(n, n.properties, m.rules, x);
    let j = choose|j: int|
        0 <= j < n.properties.len() && keep_unless_redundant(nullable_rule(n, #[trigger] n.properties[j]), m.rules).contains(x);
    lemma_kept_nullable(n, n.properties[j], m.rules, x);
}

/// The signature the rule a binding derives enforces: membership in the
/// bound value set, or a match of the bound notation pattern.
pub open spec fn binding_signature(b: BindingModel) -> SignatureModel {
    if b.kind == BindingKind::ValueSet {
        SignatureModel { kind: ConstraintKind::InValueSet, reference: b.id }
    } else {
        SignatureModel { kind: ConstraintKind::MatchesPattern, reference: b.id }
    }
}

proof fn lemma_kept_binding(n: NodeModel, p: PropertyModel, b: BindingModel, rules: Seq<RuleModel>, x: RuleModel)
    ensures
        keep_unless_redundant(binding_rule(n, p, b), rules).contains(x) <==> (binding_rule(n, p, b) == Some(x)
            && !has_signature(rules, true, (n.id, p.id, binding_signature(b)))),
{
    if let Some(r) = binding_rule(n, p, b) {
        assert(r.constraints.len() == 1);
        assert(effective_target(r, r.constraints[0]) == Some((n.id, p.id)));
        assert(signature_of(r.constraints[0]) == Some(binding_signature(b)));
        assert(seq![r][0] == r);
        if has_signature(rules, true, (n.id, p.id, binding_signature(b))) {
            assert(redundant(r, rules));
        }
        if redundant(r, rules) {
            assert(has_signature(rules, true, (n.id, p.id, binding_signature(b))));
        }
    }
}

proof fn lemma_binding_for_contains(n: NodeModel, p: PropertyModel, bs: Seq<BindingModel>, rules: Seq<RuleModel>, k: int, x: RuleModel)
    requires
        0 <= k < bs.len(),
        keep_unless_redundant(binding_rule(n, p, bs[k]), rules).contains(x),
    ensures
        binding_rules_for(n, p, bs, rules).contains(x),
    decreases bs.len(),
{
    let init = bs.subrange(0, bs.len() - 1);
    let last = keep_unless_redundant(binding_rule(n, p, bs[bs.len() - 1]), rules);
    if k < bs.len() - 1 {
        assert(init[k] == bs[k]);
        lemma_binding_for_contains(n, p, init, rules, k, x);
        lemma_in_concat_left(binding_rules_for(n, p, init, rules), last, x);
    } else {
        lemma_in_concat_right(binding_rules_for(n, p, init, rules), last, x);
    }
}

proof fn lemma_binding_of_props_contains(n: NodeModel, ps: Seq<PropertyModel>, rules: Seq<RuleModel>, j: int, x: RuleModel)
    requires
        0 <= j < ps.len(),
        binding_rules_for(n, ps[j], ps[j].bindings, rules).contains(x),
    ensures
        binding_rules_of_props(n, ps, rules).contains(x),
    decreases ps.len(),
{
    let init = ps.subrange(0, ps.len() - 1);
    let last = binding_rules_for(n, ps[ps.len() - 1], ps[ps.len() - 1].bindings, rules);
    if j < ps.len() - 1 {
        assert(init[j] == ps[j]);
        lemma_binding_of_props_contains(n, init, rules, j, x);
        lemma_in_concat_left(binding_rules_of_props(n, init, rules), last, x);
    } else {
        lemma_in_concat_right(binding_rules_of_props(n, init, rules), last, x);
    }
}

proof fn lemma_binding_of_nodes_contains(ns: Seq<NodeModel>, rules: Seq<RuleModel>, i: int, x: RuleModel)
    requires
        0 <= i < ns.len(),
        binding_rules_of_props(ns[i], ns[i].properties, rules).contains(x),
    ensures
        binding_rules_of_nodes(ns, rules).contains(x),
    decreases ns.len(),
{
    let init = ns.subrange(0, ns.len() - 1);
    let last = binding_rules_of_props(ns[ns.len() - 1], ns[ns.len() - 1].properties, rules);
    if i < ns.len() - 1 {
        assert(init[i] == ns[i]);
        lemma_binding_of_nodes_contains(init, rules, i, x);
        lemma_in_concat_left(binding_rules_of_nodes(init, rules), last, x);
    } else {
        lemma_in_concat_right(binding_rules_of_nodes(init, rules), last, x);
    }
}

/// A `Required` value-set or notation-pattern binding of a property, whose
/// signature no authored rule already enforces on that property, derives
/// its rule.
pub proof fn lemma_binding_rule_derived(m: OntologyModel, i: int, j: int, k: int)
    requires
        0 <= i < m.node_types.len(),
        0 <= j < m.node_types[i].properties.len(),
        0 <= k < m.node_types[i].properties[j].bindings.len(),
        m.node_types[i].properties[j].bindings[k].strength == BindingStrength::Required,
        m.node_types[i].properties[j].bindings[k].kind == BindingKind::ValueSet
            || m.node_types[i].properties[j].bindings[k].kind == BindingKind::NotationPattern,
        !has_signature(
            m.rules,
            true,
            (
                m.node_types[i].id,
                m.node_types[i].properties[j].id,
                binding_signature(m.node_types[i].properties[j].bindings[k]),
            ),
        ),
    ensures
        binding_rule(m.node_types[i], m.node_types[i].properties[j], m.node_types[i].properties[j].bindings[k])
            is Some,
        binding_rules(m).contains(
            binding_rule(m.node_types[i], m.node_types[i].properties[j], m.node_types[i].properties[j].bindings[k]).unwrap(),
        ),
{
    let n = m.node_types[i];
    let p = n.properties[j];
    let b = p.bindings[k];
    let r = binding_rule(n, p, b).unwrap();
    lemma_kept_binding(n, p, b, m.rules, r);
    lemma_binding_for_contains(n, p, p.bindings, m.rules, k, r);
    lemma_binding_of_props_contains(n, n.properties, m.rules, j, r);
    lemma_binding_of_nodes_contains(m.node_types, m.rules, i, r);
}

proof fn lemma_binding_for_origin(n: NodeModel, p: PropertyModel, bs: Seq<BindingModel>, rules: Seq<RuleModel>, x: RuleModel)
    requires
        binding_rules_for(n, p, bs, rules).contains(x),
    ensures
        exists|k: int| 0 <= k < bs.len() && keep_unless_redundant(binding_rule(n, p, #[trigger] bs[k]), rules).contains(x),
    decreases bs.len(),
{
    let init = bs.subrange(0, bs.len() - 1);
    let last = keep_unless_redundant(binding_rule(n, p, bs[bs.len() - 1]), rules);
    lemma_in_concat_split(binding_rules_for(n, p, init, rules), last, x);
    if binding_rules_for(n, p, init, rules).contains(x) {
        lemma_binding_for_origin(n, p, init, rules, x);
        let k = choose|k: int| 0 <= k < init.len() && keep_unless_redundant(binding_rule(n, p, #[trigger] init[k]), rules).contains(x);
        assert(init[k] == bs[k]);
    } else {
        assert(last.contains(x));
    }
}

proof fn lemma_binding_of_props_origin(n: NodeModel, ps: Seq<PropertyModel>, rules: Seq<RuleModel>, x: RuleModel)
    requires
        binding_rules_of_props(n, ps, rules).contains(x),
    ensures
        exists|j: int| 0 <= j < ps.len() && binding_rules_for(n, #[trigger] ps[j], ps[j].bindings, rules).contains(x),
    decreases ps.len(),
{
    let init = ps.subrange(0, ps.len() - 1);
    let last = binding_rules_for(n, ps[ps.len() - 1], ps[ps.len() - 1].bindings, rules);
    lemma_in_concat_split(binding_rules_of_props(n, init, rules), last, x);
    if binding_rules_of_props(n, init, rules).contains(x) {
        lemma_binding_of_props_origin(n, init, rules, x);
        let j = choose|j: int| 0 <= j < init.len() && binding_rules_for(n, #[trigger] init[j], init[j].bindings, rules).contains(x);
        assert(init[j] == ps[j]);
    } else {
        assert(last.contains(x));
    }
}

proof fn lemma_binding_of_nodes_origin(ns: Seq<NodeModel>, rules: Seq<RuleModel>, x: RuleModel)
    requires
        binding_rules_of_nodes(ns, rules).contains(x),
    ensures
        exists|i: int| 0 <= i < ns.len() && binding_rules_of_props(#[trigger] ns[i], ns[i].properties, rules).contains(x),
    decreases ns.len(),
{
    let init = ns.subrange(0, ns.len() - 1);
    let last = binding_rules_of_props(ns[ns.len() - 1], ns[ns.len() - 1].properties, rules);
    lemma_in_concat_split(binding_rules_of_nodes(init, rules), last, x);
    if binding_rules_of_nodes(init, rules).contains(x) {
        lemma_binding_of_nodes_origin(init, rules, x);
        let i = choose|i: int| 0 <= i < init.len() && binding_rules_of_props(#[trigger] init[i], init[i].properties, rules).contains(x);
        assert(init[i] == ns[i]);
    } else {
        assert(last.contains(x));
    }
}

/// Every binding rule is the rule of a `Required` value-set or
/// notation-pattern binding of a property of a node type, whose signature
/// no authored rule already enforces there.
pub proof fn lemma_binding_rule_origin(m: OntologyModel, x: RuleModel)
    requires
        binding_rules(m).contains(x),
    ensures
        exists|i: int, j: int, k: int|
            0 <= i < m.node_types.len() && 0 <= j < m.node_types[i].properties.len() && 0 <= k
                < m.node_types[i].properties[j].bindings.len() && #[trigger] binding_rule(
                m.node_types[i],
                m.node_types[i].properties[j],
                m.node_types[i].properties[j].bindings[k],
            ) == Some(x) && m.node_types[i].properties[j].bindings[k].strength == BindingStrength::Required && (
            m.node_types[i].properties[j].bindings[k].kind == BindingKind::ValueSet
                || m.node_types[i].properties[j].bindings[k].kind == BindingKind::NotationPattern) && !has_signature(
                m.rules,
                true,
                (
                    m.node_types[i].id,
                    m.node_types[i].properties[j].id,
                    binding_signature(m.node_types[i].properties[j].bindings[k]),
                ),
            ),
{
    lemma_binding_of_nodes_origin(m.node_types, m.rules, x);
    let i = choose|i: int| 0 <= i < m.node_types.len() && binding_rules_of_props(#[trigger] m.node_types[i], m.node_types[i].properties, m.rules).contains(x);
    let n = m.node_types[i];
    lemma_binding_of_props_origin(n, n.properties, m.rules, x);
    let j = choose|j: int| 0 <= j < n.properties.len() && binding_rules_for(n, #[trigger] n.properties[j], n.properties[j].bindings, m.rules).contains(x);
    let p = n.properties[j];
    lemma_binding_for_origin(n, p, p.bindings, m.rules, x);
    let k = choose|k: int| 0 <= k < p.bindings.len() && keep_unless_redundant(binding_rule(n, p, #[trigger] p.bindings[k]), m.rules).contains(x);
    lemma_kept_binding(n, p, p.bindings[k], m.rules, x);
}

} // verus!
