//! Registry cross-reference integrity.
//!
//! Properties, rules, value sets and concept maps point into the
//! ontology's registries by id. A pointer whose target is missing is a
//! dangling reference; [`RegistryReferenceCheck::dangling_references`]
//! collects every one of them, and [`render_dangling_references`] turns
//! them into diagnostics.

use vstd::prelude::*;

use crate::binding::{BindingKind, BindingModel, PropertyBinding};
use crate::ir::{EdgeModel, NodeModel, OntologyIR, PropertyDef, PropertyModel};
use crate::model::{contains_text, models, texts};
use crate::registry::{
    has_code, has_code_id, CodeSystemDef, CodeSystemModel, CodedValue, ConceptMapDef,
    ConceptMapModel, ConceptMappingModel, IncludeRuleModel, Registries, RegistriesModel,
    SelectorModel, ValueSetDef, ValueSetModel, ValueSetSelector,
};
use crate::rule::{ConstraintKind, RuleDef, ShaclConstraint, ShaclModel};
use crate::text::{decimal, decimal_string, str_equal};
use vstd::string::StringExecFns;

verus! {

/// One dangling id pointer.
#[derive(Debug, Clone, PartialEq, Eq)]
pub struct DanglingReference {
    pub source: RegistrySite,
    pub kind: DanglingKind,
    pub missing_id: String,
}

/// Where a dangling pointer lives.
#[derive(Debug, Clone, PartialEq, Eq)]
pub enum RegistrySite {
    Property { owner_label: String, property_name: String, field: &'static str },
    Rule { rule_name: String, constraint_kind: &'static str },
    ValueSet { value_set_name: String, rule_index: usize },
    ConceptMap { concept_map_name: String, field: &'static str },
    ConceptMapMapping { concept_map_name: String, mapping_index: usize, field: &'static str },
}

/// The registry a dangling pointer should have landed in.
#[derive(Debug, Clone, Copy, PartialEq, Eq, Structural)]
pub enum DanglingKind {
    Concept,
    ValueSet,
    NotationPattern,
    ValueRangeSet,
    CodeSystem,
    CodedValue,
    Code,
    ConceptMap,
}

/// A container whose registry cross-references can be checked.
pub trait RegistryReferenceCheck {
    /// Every dangling reference in the container.
    fn dangling_references(&self) -> Vec<DanglingReference>;
}

/// Model of a [`RegistrySite`].
pub enum SiteModel {
    Property { owner_label: Seq<char>, property_name: Seq<char>, field: Seq<char> },
    Rule { rule_name: Seq<char>, constraint_kind: Seq<char> },
    ValueSet { value_set_name: Seq<char>, rule_index: int },
    ConceptMap { concept_map_name: Seq<char>, field: Seq<char> },
    ConceptMapMapping { concept_map_name: Seq<char>, mapping_index: int, field: Seq<char> },
}

impl View for RegistrySite {
    type V = SiteModel;

    open spec fn view(&self) -> SiteModel {
        match self {
            RegistrySite::Property { owner_label, property_name, field } => SiteModel::Property {
                owner_label: owner_label@,
                property_name: property_name@,
                field: field@,
            },
            RegistrySite::Rule { rule_name, constraint_kind } => SiteModel::Rule {
                rule_name: rule_name@,
                constraint_kind: constraint_kind@,
            },
            RegistrySite::ValueSet { value_set_name, rule_index } => SiteModel::ValueSet {
                value_set_name: value_set_name@,
                rule_index: *rule_index as int,
            },
            RegistrySite::ConceptMap { concept_map_name, field } => SiteModel::ConceptMap {
                concept_map_name: concept_map_name@,
                field: field@,
            },
            RegistrySite::ConceptMapMapping { concept_map_name, mapping_index, field } => SiteModel::ConceptMapMapping {
                concept_map_name: concept_map_name@,
                mapping_index: *mapping_index as int,
                field: field@,
            },
        }
    }
}

/// Model of a [`DanglingReference`].
pub struct DanglingModel {
    pub site: SiteModel,
    pub kind: DanglingKind,
    pub missing_id: Seq<char>,
}

impl View for DanglingReference {
    type V = DanglingModel;

    open spec fn view(&self) -> DanglingModel {
        DanglingModel { site: self.source@, kind: self.kind, missing_id: self.missing_id@ }
    }
}

// ---------------------------------------------------------------------------
// What is dangling
// ---------------------------------------------------------------------------

/// Some value set has id `id`.
pub open spec fn has_value_set(r: RegistriesModel, id: Seq<char>) -> bool {
    exists|i: int| 0 <= i < r.value_sets.len() && (#[trigger] r.value_sets[i]).id == id
}

/// Some concept has id `id`.
pub open spec fn has_concept(r: RegistriesModel, id: Seq<char>) -> bool {
    exists|i: int| 0 <= i < r.concepts.len() && (#[trigger] r.concepts[i]).id == id
}

/// Some code system has id `id`.
pub open spec fn has_code_system(r: RegistriesModel, id: Seq<char>) -> bool {
    exists|i: int| 0 <= i < r.code_systems.len() && (#[trigger] r.code_systems[i]).id == id
}

/// Some concept map has id `id`.
pub open spec fn has_concept_map(r: RegistriesModel, id: Seq<char>) -> bool {
    exists|i: int| 0 <= i < r.concept_maps.len() && (#[trigger] r.concept_maps[i]).id == id
}

/// The code system a lookup by id finds: the last one with that id.
pub open spec fn system_for(css: Seq<CodeSystemModel>, id: Seq<char>) -> Option<CodeSystemModel>
    decreases css.len(),
{
    if css.len() == 0 {
        None
    } else if css.last().id == id {
        Some(css.last())
    } else {
        system_for(css.drop_last(), id)
    }
}

/// Code system `i` is the last one with its id, so a lookup by id finds it.
pub open spec fn reachable_system(css: Seq<CodeSystemModel>, i: int) -> bool {
    forall|j: int| i < j < css.len() ==> (#[trigger] css[j]).id != css[i].id
}

/// Some code system a lookup by id reaches holds a code with id `uid`.
pub open spec fn coded_value_exists(r: RegistriesModel, uid: Seq<char>) -> bool {
    exists|i: int|
        0 <= i < r.code_systems.len() && reachable_system(r.code_systems, i) && has_code_id(
            (#[trigger] r.code_systems[i]).codes,
            uid,
        )
}

/// A dangling reference.
pub open spec fn dangling(site: SiteModel, kind: DanglingKind, id: Seq<char>) -> DanglingModel {
    DanglingModel { site, kind, missing_id: id }
}

/// The site of a property's field.
pub open spec fn property_site(owner: Seq<char>, pname: Seq<char>, field: Seq<char>) -> SiteModel {
    SiteModel::Property { owner_label: owner, property_name: pname, field }
}

/// The dangling concept map of a binding, if it names a missing one.
pub open spec fn concept_map_refs(
    r: RegistriesModel,
    owner: Seq<char>,
    pname: Seq<char>,
    cm: Option<Seq<char>>,
) -> Seq<DanglingModel> {
    match cm {
        Some(id) => if has_concept_map(r, id) {
            Seq::empty()
        } else {
            seq![dangling(property_site(owner, pname, "bindings.concept_map_id"@), DanglingKind::ConceptMap, id)]
        },
        None => Seq::empty(),
    }
}

/// Dangling references of one binding of a property.
pub open spec fn binding_refs(r: RegistriesModel, owner: Seq<char>, pname: Seq<char>, b: BindingModel) -> Seq<DanglingModel> {
    match b.kind {
        BindingKind::ValueSet => (if has_value_set(r, b.id) {
            Seq::empty()
        } else {
            seq![dangling(property_site(owner, pname, "bindings.value_set"@), DanglingKind::ValueSet, b.id)]
        }) + concept_map_refs(r, owner, pname, b.concept_map_id),
        BindingKind::NotationPattern => if r.notation_patterns.contains(b.id) {
            Seq::empty()
        } else {
            seq![dangling(property_site(owner, pname, "bindings.notation_pattern"@), DanglingKind::NotationPattern, b.id)]
        },
        BindingKind::ValueRange => if r.value_range_sets.contains(b.id) {
            Seq::empty()
        } else {
            seq![dangling(property_site(owner, pname, "bindings.value_range"@), DanglingKind::ValueRangeSet, b.id)]
        },
        BindingKind::CodeSystem => (if has_code_system(r, b.id) {
            Seq::empty()
        } else {
            seq![dangling(property_site(owner, pname, "bindings.code_system"@), DanglingKind::CodeSystem, b.id)]
        }) + concept_map_refs(r, owner, pname, b.concept_map_id),
        BindingKind::Glossary => Seq::empty(),
        BindingKind::Concept => if has_concept(r, b.id) {
            Seq::empty()
        } else {
            seq![dangling(property_site(owner, pname, "bindings.concept"@), DanglingKind::Concept, b.id)]
        },
    }
}

/// Dangling references of a property's bindings, in order.
pub open spec fn bindings_refs(r: RegistriesModel, owner: Seq<char>, pname: Seq<char>, bs: Seq<BindingModel>) -> Seq<DanglingModel>
    decreases bs.len(),
{
    if bs.len() == 0 {
        Seq::empty()
    } else {
        bindings_refs(r, owner, pname, bs.drop_last()) + binding_refs(r, owner, pname, bs.last())
    }
}

/// Dangling references of a property: its bindings, then its unit.
pub open spec fn property_refs(r: RegistriesModel, owner: Seq<char>, p: PropertyModel) -> Seq<DanglingModel> {
    bindings_refs(r, owner, p.name, p.bindings) + match p.unit_id {
        Some(u) => if coded_value_exists(r, u) {
            Seq::empty()
        } else {
            seq![dangling(property_site(owner, p.name, "unit_id"@), DanglingKind::CodedValue, u)]
        },
        None => Seq::empty(),
    }
}

/// Dangling references of an owner's properties, in order.
pub open spec fn properties_refs(r: RegistriesModel, owner: Seq<char>, ps: Seq<PropertyModel>) -> Seq<DanglingModel>
    decreases ps.len(),
{
    if ps.len() == 0 {
        Seq::empty()
    } else {
        properties_refs(r, owner, ps.drop_last()) + property_refs(r, owner, ps.last())
    }
}

/// Dangling references of the node types' properties, in order.
pub open spec fn node_properties_refs(r: RegistriesModel, ns: Seq<NodeModel>) -> Seq<DanglingModel>
    decreases ns.len(),
{
    if ns.len() == 0 {
        Seq::empty()
    } else {
        node_properties_refs(r, ns.drop_last()) + properties_refs(r, ns.last().label, ns.last().properties)
    }
}

/// Dangling references of the edge types' properties, in order.
pub open spec fn edge_properties_refs(r: RegistriesModel, es: Seq<EdgeModel>) -> Seq<DanglingModel>
    decreases es.len(),
{
    if es.len() == 0 {
        Seq::empty()
    } else {
        edge_properties_refs(r, es.drop_last()) + properties_refs(r, es.last().label, es.last().properties)
    }
}

/// The kind name a rule site shows for a constraint.
pub open spec fn constraint_kind_name(k: ConstraintKind) -> Seq<char> {
    match k {
        ConstraintKind::InValueSet => "InValueSet"@,
        ConstraintKind::MatchesPattern => "MatchesPattern"@,
        ConstraintKind::LessThan => "LessThan"@,
        ConstraintKind::Equals => "Equals"@,
        _ => "Other"@,
    }
}

/// Dangling references of one rule constraint: a missing value set or
/// notation pattern.
pub open spec fn constraint_refs(r: RegistriesModel, rule_name: Seq<char>, c: ShaclModel) -> Seq<DanglingModel> {
    let site = SiteModel::Rule { rule_name, constraint_kind: constraint_kind_name(c.kind) };
    if c.kind == ConstraintKind::InValueSet && !has_value_set(r, c.reference) {
        seq![dangling(site, DanglingKind::ValueSet, c.reference)]
    } else if c.kind == ConstraintKind::MatchesPattern && !r.notation_patterns.contains(c.reference) {
        seq![dangling(site, DanglingKind::NotationPattern, c.reference)]
    } else {
        Seq::empty()
    }
}

/// Dangling references of a rule's constraints, in order.
pub open spec fn constraints_refs(r: RegistriesModel, rule_name: Seq<char>, cs: Seq<ShaclModel>) -> Seq<DanglingModel>
    decreases cs.len(),
{
    if cs.len() == 0 {
        Seq::empty()
    } else {
        constraints_refs(r, rule_name, cs.drop_last()) + constraint_refs(r, rule_name, cs.last())
    }
}

/// Dangling references of the rules, in order.
pub open spec fn rules_refs(r: RegistriesModel, rules: Seq<crate::rule::RuleModel>) -> Seq<DanglingModel>
    decreases rules.len(),
{
    if rules.len() == 0 {
        Seq::empty()
    } else {
        rules_refs(r, rules.drop_last()) + constraints_refs(r, rules.last().name.en, rules.last().constraints)
    }
}

/// A listed code missing from a value set's code system.
pub open spec fn missing_code(site: SiteModel, sys: CodeSystemModel) -> spec_fn(Seq<char>) -> Option<DanglingModel> {
    |code: Seq<char>|
        if has_code(sys.codes, code) {
            None
        } else {
            Some(dangling(site, DanglingKind::Code, code))
        }
}

/// Dangling references of one composition rule (number `idx`) of a
/// value set.
pub open spec fn include_refs(r: RegistriesModel, vs_name: Seq<char>, idx: int, rule: IncludeRuleModel) -> Seq<DanglingModel> {
    let site = SiteModel::ValueSet { value_set_name: vs_name, rule_index: idx };
    match system_for(r.code_systems, rule.system_id) {
        None => seq![dangling(site, DanglingKind::CodeSystem, rule.system_id)],
        Some(sys) => match rule.selector {
            SelectorModel::Explicit(codes) => codes.filter_map(missing_code(site, sys)),
            SelectorModel::DescendantsOf(root) => if has_code_id(sys.codes, root) {
                Seq::empty()
            } else {
                seq![dangling(site, DanglingKind::CodedValue, root)]
            },
            _ => Seq::empty(),
        },
    }
}

/// Dangling references of a value set's composition rules, in order.
pub open spec fn includes_refs(r: RegistriesModel, vs_name: Seq<char>, rules: Seq<IncludeRuleModel>) -> Seq<DanglingModel>
    decreases rules.len(),
{
    if rules.len() == 0 {
        Seq::empty()
    } else {
        includes_refs(r, vs_name, rules.drop_last()) + include_refs(r, vs_name, rules.len() - 1, rules.last())
    }
}

/// Dangling references of the value sets, in order.
pub open spec fn value_sets_refs(r: RegistriesModel, vss: Seq<ValueSetModel>) -> Seq<DanglingModel>
    decreases vss.len(),
{
    if vss.len() == 0 {
        Seq::empty()
    } else {
        value_sets_refs(r, vss.drop_last()) + includes_refs(r, vss.last().name, vss.last().composition)
    }
}

/// Dangling codes of one entry (number `idx`) of a concept map, checked
/// against each system that exists.
pub open spec fn mapping_refs(
    name: Seq<char>,
    idx: int,
    src: Option<CodeSystemModel>,
    tgt: Option<CodeSystemModel>,
    m: ConceptMappingModel,
) -> Seq<DanglingModel> {
    (match src {
        Some(s) => if has_code(s.codes, m.source_code) {
            Seq::empty()
        } else {
            seq![dangling(
                SiteModel::ConceptMapMapping { concept_map_name: name, mapping_index: idx, field: "source_code"@ },
                DanglingKind::Code,
                m.source_code,
            )]
        },
        None => Seq::empty(),
    }) + match tgt {
        Some(t) => if has_code(t.codes, m.target_code) {
            Seq::empty()
        } else {
            seq![dangling(
                SiteModel::ConceptMapMapping { concept_map_name: name, mapping_index: idx, field: "target_code"@ },
                DanglingKind::Code,
                m.target_code,
            )]
        },
        None => Seq::empty(),
    }
}

/// Dangling codes of a concept map's entries, in order.
pub open spec fn mappings_refs(
    name: Seq<char>,
    src: Option<CodeSystemModel>,
    tgt: Option<CodeSystemModel>,
    ms: Seq<ConceptMappingModel>,
) -> Seq<DanglingModel>
    decreases ms.len(),
{
    if ms.len() == 0 {
        Seq::empty()
    } else {
        mappings_refs(name, src, tgt, ms.drop_last()) + mapping_refs(name, ms.len() - 1, src, tgt, ms.last())
    }
}

/// Dangling references of a concept map: its systems, then its entries'
/// codes.
pub open spec fn concept_map_walk_refs(r: RegistriesModel, cm: ConceptMapModel) -> Seq<DanglingModel> {
    let src = system_for(r.code_systems, cm.source_system_id);
    let tgt = system_for(r.code_systems, cm.target_system_id);
    (if src is None {
        seq![dangling(
            SiteModel::ConceptMap { concept_map_name: cm.name, field: "source_system_id"@ },
            DanglingKind::CodeSystem,
            cm.source_system_id,
        )]
    } else {
        Seq::empty()
    }) + (if tgt is None {
        seq![dangling(
            SiteModel::ConceptMap { concept_map_name: cm.name, field: "target_system_id"@ },
            DanglingKind::CodeSystem,
            cm.target_system_id,
        )]
    } else {
        Seq::empty()
    }) + mappings_refs(cm.name, src, tgt, cm.mappings)
}

/// Dangling references of the concept maps, in order.
pub open spec fn concept_maps_refs(r: RegistriesModel, cms: Seq<ConceptMapModel>) -> Seq<DanglingModel>
    decreases cms.len(),
{
    if cms.len() == 0 {
        Seq::empty()
    } else {
        concept_maps_refs(r, cms.drop_last()) + concept_map_walk_refs(r, cms.last())
    }
}

/// Every dangling reference of an ontology, in order: node type
/// properties, edge type properties, rules, value sets, concept maps.
pub open spec fn dangling_refs(m: crate::ir::OntologyModel) -> Seq<DanglingModel> {
    let r = m.registries;
    node_properties_refs(r, m.node_types) + edge_properties_refs(r, m.edge_types) + rules_refs(r, m.rules)
        + value_sets_refs(r, r.value_sets) + concept_maps_refs(r, r.concept_maps)
}

// ---------------------------------------------------------------------------
// Every report is dangling
// ---------------------------------------------------------------------------

/// A reference of this kind names no entry of its registry: no value
/// set, concept map, notation pattern, value-range set or code system
/// has the id. (Codes and coded values are checked inside one system
/// and are not covered.)
pub open spec fn names_missing_entry(r: RegistriesModel, d: DanglingModel) -> bool {
    match d.kind {
        DanglingKind::ValueSet => !has_value_set(r, d.missing_id),
        DanglingKind::ConceptMap => !has_concept_map(r, d.missing_id),
        DanglingKind::NotationPattern => !r.notation_patterns.contains(d.missing_id),
        DanglingKind::ValueRangeSet => !r.value_range_sets.contains(d.missing_id),
        DanglingKind::CodeSystem => !has_code_system(r, d.missing_id),
        _ => true,
    }
}

/// Every reference of a list names a missing entry.
pub open spec fn all_name_missing(r: RegistriesModel, ds: Seq<DanglingModel>) -> bool {
    forall|i: int| 0 <= i < ds.len() ==> names_missing_entry(r, #[trigger] ds[i])
}

proof fn lemma_concat_missing(r: RegistriesModel, a: Seq<DanglingModel>, b: Seq<DanglingModel>)
    requires
        all_name_missing(r, a),
        all_name_missing(r, b),
    ensures
        all_name_missing(r, a + b),
{
    assert forall|i: int| 0 <= i < (a + b).len() implies names_missing_entry(r, #[trigger] (a + b)[i]) by {
        if i < a.len() {
            assert((a + b)[i] == a[i]);
        } else {
            assert((a + b)[i] == b[i - a.len()]);
        }
    }
}

/// A lookup by id finds nothing exactly when no code system has the id.
proof fn lemma_system_for_none(css: Seq<CodeSystemModel>, id: Seq<char>)
    ensures
        system_for(css, id) is None <==> !(exists|i: int| 0 <= i < css.len() && (#[trigger] css[i]).id == id),
    decreases css.len(),
{
    if css.len() > 0 {
        lemma_system_for_none(css.drop_last(), id);
        if exists|i: int| 0 <= i < css.len() && (#[trigger] css[i]).id == id {
            let i = choose|i: int| 0 <= i < css.len() && (#[trigger] css[i]).id == id;
            if i < css.len() - 1 {
                assert(css.drop_last()[i].id == id);
            }
        }
        if exists|i: int| 0 <= i < css.drop_last().len() && (#[trigger] css.drop_last()[i]).id == id {
            let i = choose|i: int| 0 <= i < css.drop_last().len() && (#[trigger] css.drop_last()[i]).id == id;
            assert(css[i].id == id);
        }
    }
}

proof fn lemma_bindings_missing(r: RegistriesModel, owner: Seq<char>, pname: Seq<char>, bs: Seq<BindingModel>)
    ensures
        all_name_missing(r, bindings_refs(r, owner, pname, bs)),
    decreases bs.len(),
{
    if bs.len() > 0 {
        lemma_bindings_missing(r, owner, pname, bs.drop_last());
        let b = bs.last();
        let cm = concept_map_refs(r, owner, pname, b.concept_map_id);
        assert(all_name_missing(r, cm));
        let one = binding_refs(r, owner, pname, b);
        assert(all_name_missing(r, one)) by {
            if b.kind == BindingKind::ValueSet || b.kind == BindingKind::CodeSystem {
                let head = if b.kind == BindingKind::ValueSet {
                    if has_value_set(r, b.id) {
                        Seq::<DanglingModel>::empty()
                    } else {
                        seq![dangling(property_site(owner, pname, "bindings.value_set"@), DanglingKind::ValueSet, b.id)]
                    }
                } else {
                    if has_code_system(r, b.id) {
                        Seq::<DanglingModel>::empty()
                    } else {
                        seq![dangling(property_site(owner, pname, "bindings.code_system"@), DanglingKind::CodeSystem, b.id)]
                    }
                };
                assert(all_name_missing(r, head));
                lemma_concat_missing(r, head, cm);
                assert(one == head + cm);
            }
        }
        lemma_concat_missing(r, bindings_refs(r, owner, pname, bs.drop_last()), one);
    }
}

proof fn lemma_properties_missing(r: RegistriesModel, owner: Seq<char>, ps: Seq<PropertyModel>)
    ensures
        all_name_missing(r, properties_refs(r, owner, ps)),
    decreases ps.len(),
{
    if ps.len() > 0 {
        lemma_properties_missing(r, owner, ps.drop_last());
        let p = ps.last();
        lemma_bindings_missing(r, owner, p.name, p.bindings);
        let tail: Seq<DanglingModel> = match p.unit_id {
            Some(u) => if coded_value_exists(r, u) {
                Seq::empty()
            } else {
                seq![dangling(property_site(owner, p.name, "unit_id"@), DanglingKind::CodedValue, u)]
            },
            None => Seq::empty(),
        };
        assert(all_name_missing(r, tail));
        lemma_concat_missing(r, bindings_refs(r, owner, p.name, p.bindings), tail);
        lemma_concat_missing(r, properties_refs(r, owner, ps.drop_last()), property_refs(r, owner, p));
    }
}

proof fn lemma_node_properties_missing(r: RegistriesModel, ns: Seq<NodeModel>)
    ensures
        all_name_missing(r, node_properties_refs(r, ns)),
    decreases ns.len(),
{
    if ns.len() > 0 {
        lemma_node_properties_missing(r, ns.drop_last());
        lemma_properties_missing(r, ns.last().label, ns.last().properties);
        lemma_concat_missing(
            r,
            node_properties_refs(r, ns.drop_last()),
            properties_refs(r, ns.last().label, ns.last().properties),
        );
    }
}

proof fn lemma_edge_properties_missing(r: RegistriesModel, es: Seq<EdgeModel>)
    ensures
        all_name_missing(r, edge_properties_refs(r, es)),
    decreases es.len(),
{
    if es.len() > 0 {
        lemma_edge_properties_missing(r, es.drop_last());
        lemma_properties_missing(r, es.last().label, es.last().properties);
        lemma_concat_missing(
            r,
            edge_properties_refs(r, es.drop_last()),
            properties_refs(r, es.last().label, es.last().properties),
        );
    }
}

proof fn lemma_constraints_missing(r: RegistriesModel, name: Seq<char>, cs: Seq<ShaclModel>)
    ensures
        all_name_missing(r, constraints_refs(r, name, cs)),
    decreases cs.len(),
{
    if cs.len() > 0 {
        lemma_constraints_missing(r, name, cs.drop_last());
        assert(all_name_missing(r, constraint_refs(r, name, cs.last())));
        lemma_concat_missing(r, constraints_refs(r, name, cs.drop_last()), constraint_refs(r, name, cs.last()));
    }
}

proof fn lemma_rules_missing(r: RegistriesModel, rules: Seq<crate::rule::RuleModel>)
    ensures
        all_name_missing(r, rules_refs(r, rules)),
    decreases rules.len(),
{
    if rules.len() > 0 {
        lemma_rules_missing(r, rules.drop_last());
        lemma_constraints_missing(r, rules.last().name.en, rules.last().constraints);
        lemma_concat_missing(
            r,
            rules_refs(r, rules.drop_last()),
            constraints_refs(r, rules.last().name.en, rules.last().constraints),
        );
    }
}

proof fn lemma_includes_missing(r: RegistriesModel, name: Seq<char>, rules: Seq<IncludeRuleModel>)
    ensures
        all_name_missing(r, includes_refs(r, name, rules)),
    decreases rules.len(),
{
    if rules.len() > 0 {
        lemma_includes_missing(r, name, rules.drop_last());
        let rule = rules.last();
        let one = include_refs(r, name, rules.len() - 1, rule);
        assert(all_name_missing(r, one)) by {
            lemma_system_for_none(r.code_systems, rule.system_id);
            match system_for(r.code_systems, rule.system_id) {
                None => {},
                Some(sys) => {
                    let site = SiteModel::ValueSet { value_set_name: name, rule_index: rules.len() - 1 };
                    match rule.selector {
                        SelectorModel::Explicit(codes) => {
                            lemma_filter_map_codes(codes, site, sys);
                        },
                        _ => {},
                    }
                },
            }
        }
        lemma_concat_missing(r, includes_refs(r, name, rules.drop_last()), one);
    }
}

/// Missing listed codes are all reported as codes.
proof fn lemma_filter_map_codes(codes: Seq<Seq<char>>, site: SiteModel, sys: CodeSystemModel)
    ensures
        forall|i: int|
            0 <= i < codes.filter_map(missing_code(site, sys)).len() ==> (#[trigger] codes.filter_map(
                missing_code(site, sys),
            )[i]).kind == DanglingKind::Code,
    decreases codes.len(),
{
    if codes.len() > 0 {
        lemma_filter_map_codes(codes.drop_last(), site, sys);
        let prev = codes.drop_last().filter_map(missing_code(site, sys));
        let all = codes.filter_map(missing_code(site, sys));
        assert forall|i: int| 0 <= i < all.len() implies (#[trigger] all[i]).kind == DanglingKind::Code by {
            if i < prev.len() {
                assert(all[i] == prev[i]);
            }
        }
    }
}

proof fn lemma_value_sets_missing(r: RegistriesModel, vss: Seq<ValueSetModel>)
    ensures
        all_name_missing(r, value_sets_refs(r, vss)),
    decreases vss.len(),
{
    if vss.len() > 0 {
        lemma_value_sets_missing(r, vss.drop_last());
        lemma_includes_missing(r, vss.last().name, vss.last().composition);
        lemma_concat_missing(
            r,
            value_sets_refs(r, vss.drop_last()),
            includes_refs(r, vss.last().name, vss.last().composition),
        );
    }
}

proof fn lemma_mappings_missing(
    r: RegistriesModel,
    name: Seq<char>,
    src: Option<CodeSystemModel>,
    tgt: Option<CodeSystemModel>,
    ms: Seq<ConceptMappingModel>,
)
    ensures
        all_name_missing(r, mappings_refs(name, src, tgt, ms)),
    decreases ms.len(),
{
    if ms.len() > 0 {
        lemma_mappings_missing(r, name, src, tgt, ms.drop_last());
        assert(all_name_missing(r, mapping_refs(name, ms.len() - 1, src, tgt, ms.last())));
        lemma_concat_missing(
            r,
            mappings_refs(name, src, tgt, ms.drop_last()),
            mapping_refs(name, ms.len() - 1, src, tgt, ms.last()),
        );
    }
}

proof fn lemma_concept_maps_missing(r: RegistriesModel, cms: Seq<ConceptMapModel>)
    ensures
        all_name_missing(r, concept_maps_refs(r, cms)),
    decreases cms.len(),
{
    if cms.len() > 0 {
        lemma_concept_maps_missing(r, cms.drop_last());
        let cm = cms.last();
        let src = system_for(r.code_systems, cm.source_system_id);
        let tgt = system_for(r.code_systems, cm.target_system_id);
        lemma_system_for_none(r.code_systems, cm.source_system_id);
        lemma_system_for_none(r.code_systems, cm.target_system_id);
        let a: Seq<DanglingModel> = if src is None {
            seq![dangling(
                SiteModel::ConceptMap { concept_map_name: cm.name, field: "source_system_id"@ },
                DanglingKind::CodeSystem,
                cm.source_system_id,
            )]
        } else {
            Seq::empty()
        };
        let b: Seq<DanglingModel> = if tgt is None {
            seq![dangling(
                SiteModel::ConceptMap { concept_map_name: cm.name, field: "target_system_id"@ },
                DanglingKind::CodeSystem,
                cm.target_system_id,
            )]
        } else {
            Seq::empty()
        };
        assert(all_name_missing(r, a));
        assert(all_name_missing(r, b));
        lemma_mappings_missing(r, cm.name, src, tgt, cm.mappings);
        lemma_concat_missing(r, a, b);
        lemma_concat_missing(r, a + b, mappings_refs(cm.name, src, tgt, cm.mappings));
        lemma_concat_missing(r, concept_maps_refs(r, cms.drop_last()), concept_map_walk_refs(r, cm));
    }
}

/// Every reported reference to a value set, concept map, notation
/// pattern, value-range set or code system names an id that no entry of
/// that registry has.
pub proof fn lemma_reported_references_dangle(m: crate::ir::OntologyModel)
    ensures
        all_name_missing(m.registries, dangling_refs(m)),
{
    let r = m.registries;
    lemma_node_properties_missing(r, m.node_types);
    lemma_edge_properties_missing(r, m.edge_types);
    lemma_rules_missing(r, m.rules);
    lemma_value_sets_missing(r, r.value_sets);
    lemma_concept_maps_missing(r, r.concept_maps);
    lemma_concat_missing(r, node_properties_refs(r, m.node_types), edge_properties_refs(r, m.edge_types));
    lemma_concat_missing(
        r,
        node_properties_refs(r, m.node_types) + edge_properties_refs(r, m.edge_types),
        rules_refs(r, m.rules),
    );
    lemma_concat_missing(
        r,
        node_properties_refs(r, m.node_types) + edge_properties_refs(r, m.edge_types) + rules_refs(r, m.rules),
        value_sets_refs(r, r.value_sets),
    );
    lemma_concat_missing(
        r,
        node_properties_refs(r, m.node_types) + edge_properties_refs(r, m.edge_types) + rules_refs(r, m.rules)
            + value_sets_refs(r, r.value_sets),
        concept_maps_refs(r, r.concept_maps),
    );
}

// ---------------------------------------------------------------------------
// Every missing binding target is reported
// ---------------------------------------------------------------------------

/// Every reference in `a` is in `b`.
pub open spec fn included(a: Seq<DanglingModel>, b: Seq<DanglingModel>) -> bool {
    forall|x: DanglingModel| #[trigger] a.contains(x) ==> b.contains(x)
}

proof fn lemma_included_concat(a: Seq<DanglingModel>, b: Seq<DanglingModel>)
    ensures
        included(a, a + b),
        included(b, a + b),
{
    assert forall|x: DanglingModel| #[trigger] a.contains(x) implies (a + b).contains(x) by {
        let j = choose|j: int| 0 <= j < a.len() && a[j] == x;
        assert((a + b)[j] == x);
    }
    assert forall|x: DanglingModel| #[trigger] b.contains(x) implies (a + b).contains(x) by {
        let j = choose|j: int| 0 <= j < b.len() && b[j] == x;
        assert((a + b)[a.len() + j] == x);
    }
}

proof fn lemma_included_trans(a: Seq<DanglingModel>, b: Seq<DanglingModel>, c: Seq<DanglingModel>)
    requires
        included(a, b),
        included(b, c),
    ensures
        included(a, c),
{
    assert forall|x: DanglingModel| #[trigger] a.contains(x) implies c.contains(x) by {
        assert(b.contains(x));
    }
}

proof fn lemma_bindings_include(r: RegistriesModel, owner: Seq<char>, pname: Seq<char>, bs: Seq<BindingModel>, k: int)
    requires
        0 <= k < bs.len(),
    ensures
        included(binding_refs(r, owner, pname, bs[k]), bindings_refs(r, owner, pname, bs)),
    decreases bs.len(),
{
    let init = bindings_refs(r, owner, pname, bs.drop_last());
    let last = binding_refs(r, owner, pname, bs.last());
    lemma_included_concat(init, last);
    if k < bs.len() - 1 {
        assert(bs.drop_last()[k] == bs[k]);
        lemma_bindings_include(r, owner, pname, bs.drop_last(), k);
        lemma_included_trans(binding_refs(r, owner, pname, bs[k]), init, init + last);
    }
}

proof fn lemma_properties_include(r: RegistriesModel, owner: Seq<char>, ps: Seq<PropertyModel>, j: int)
    requires
        0 <= j < ps.len(),
    ensures
        included(bindings_refs(r, owner, ps[j].name, ps[j].bindings), properties_refs(r, owner, ps)),
    decreases ps.len(),
{
    let init = properties_refs(r, owner, ps.drop_last());
    let last = property_refs(r, owner, ps.last());
    lemma_included_concat(init, last);
    if j < ps.len() - 1 {
        assert(ps.drop_last()[j] == ps[j]);
        lemma_properties_include(r, owner, ps.drop_last(), j);
        lemma_included_trans(bindings_refs(r, owner, ps[j].name, ps[j].bindings), init, init + last);
    } else {
        let p = ps.last();
        let tail: Seq<DanglingModel> = match p.unit_id {
            Some(u) => if coded_value_exists(r, u) {
                Seq::empty()
            } else {
                seq![dangling(property_site(owner, p.name, "unit_id"@), DanglingKind::CodedValue, u)]
            },
            None => Seq::empty(),
        };
        lemma_included_concat(bindings_refs(r, owner, p.name, p.bindings), tail);
        lemma_included_trans(bindings_refs(r, owner, p.name, p.bindings), last, init + last);
    }
}

proof fn lemma_node_properties_include(r: RegistriesModel, ns: Seq<NodeModel>, i: int)
    requires
        0 <= i < ns.len(),
    ensures
        included(properties_refs(r, ns[i].label, ns[i].properties), node_properties_refs(r, ns)),
    decreases ns.len(),
{
    let init = node_properties_refs(r, ns.drop_last());
    let last = properties_refs(r, ns.last().label, ns.last().properties);
    lemma_included_concat(init, last);
    if i < ns.len() - 1 {
        assert(ns.drop_last()[i] == ns[i]);
        lemma_node_properties_include(r, ns.drop_last(), i);
        lemma_included_trans(properties_refs(r, ns[i].label, ns[i].properties), init, init + last);
    }
}

proof fn lemma_edge_properties_include(r: RegistriesModel, es: Seq<EdgeModel>, i: int)
    requires
        0 <= i < es.len(),
    ensures
        included(properties_refs(r, es[i].label, es[i].properties), edge_properties_refs(r, es)),
    decreases es.len(),
{
    let init = edge_properties_refs(r, es.drop_last());
    let last = properties_refs(r, es.last().label, es.last().properties);
    lemma_included_concat(init, last);
    if i < es.len() - 1 {
        assert(es.drop_last()[i] == es[i]);
        lemma_edge_properties_include(r, es.drop_last(), i);
        lemma_included_trans(properties_refs(r, es[i].label, es[i].properties), init, init + last);
    }
}

/// What a complete check reports in `out` of one binding `b` of property
/// `pname` owned by `owner`: a binding to a value set, code system,
/// notation pattern, value-range set or concept whose id no entry of that
/// registry has yields a reference naming that id at the binding's field;
/// a value-set or code-system binding through a concept map that no entry
/// has yields a reference naming the concept map.
pub open spec fn binding_reported(
    r: RegistriesModel,
    owner: Seq<char>,
    pname: Seq<char>,
    b: BindingModel,
    out: Seq<DanglingModel>,
) -> bool {
    &&& (b.kind == BindingKind::CodeSystem && forall|c: int|
        0 <= c < r.code_systems.len() ==> (#[trigger] r.code_systems[c]).id != b.id) ==> out.contains(
        DanglingModel {
            site: SiteModel::Property { owner_label: owner, property_name: pname, field: "bindings.code_system"@ },
            kind: DanglingKind::CodeSystem,
            missing_id: b.id,
        },
    )
    &&& (b.kind == BindingKind::ValueSet && forall|c: int|
        0 <= c < r.value_sets.len() ==> (#[trigger] r.value_sets[c]).id != b.id) ==> out.contains(
        DanglingModel {
            site: SiteModel::Property { owner_label: owner, property_name: pname, field: "bindings.value_set"@ },
            kind: DanglingKind::ValueSet,
            missing_id: b.id,
        },
    )
    &&& (b.kind == BindingKind::NotationPattern && !r.notation_patterns.contains(b.id)) ==> out.contains(
        DanglingModel {
            site: SiteModel::Property {
                owner_label: owner,
                property_name: pname,
                field: "bindings.notation_pattern"@,
            },
            kind: DanglingKind::NotationPattern,
            missing_id: b.id,
        },
    )
    &&& (b.kind == BindingKind::ValueRange && !r.value_range_sets.contains(b.id)) ==> out.contains(
        DanglingModel {
            site: SiteModel::Property { owner_label: owner, property_name: pname, field: "bindings.value_range"@ },
            kind: DanglingKind::ValueRangeSet,
            missing_id: b.id,
        },
    )
    &&& (b.kind == BindingKind::Concept && forall|c: int|
        0 <= c < r.concepts.len() ==> (#[trigger] r.concepts[c]).id != b.id) ==> out.contains(
        DanglingModel {
            site: SiteModel::Property { owner_label: owner, property_name: pname, field: "bindings.concept"@ },
            kind: DanglingKind::Concept,
            missing_id: b.id,
        },
    )
    &&& (b.kind == BindingKind::ValueSet || b.kind == BindingKind::CodeSystem) ==> (
    b.concept_map_id matches Some(cm) ==> ((forall|c: int|
        0 <= c < r.concept_maps.len() ==> (#[trigger] r.concept_maps[c]).id != cm) ==> out.contains(
        DanglingModel {
            site: SiteModel::Property {
                owner_label: owner,
                property_name: pname,
                field: "bindings.concept_map_id"@,
            },
            kind: DanglingKind::ConceptMap,
            missing_id: cm,
        },
    )))
}

proof fn lemma_binding_reported(r: RegistriesModel, owner: Seq<char>, pname: Seq<char>, b: BindingModel)
    ensures
        binding_reported(r, owner, pname, b, binding_refs(r, owner, pname, b)),
{
    let out = binding_refs(r, owner, pname, b);
    let cm = concept_map_refs(r, owner, pname, b.concept_map_id);
    if b.kind == BindingKind::ValueSet || b.kind == BindingKind::CodeSystem {
        let head = if b.kind == BindingKind::ValueSet {
            if has_value_set(r, b.id) {
                Seq::<DanglingModel>::empty()
            } else {
                seq![dangling(property_site(owner, pname, "bindings.value_set"@), DanglingKind::ValueSet, b.id)]
            }
        } else {
            if has_code_system(r, b.id) {
                Seq::<DanglingModel>::empty()
            } else {
                seq![dangling(property_site(owner, pname, "bindings.code_system"@), DanglingKind::CodeSystem, b.id)]
            }
        };
        assert(out =~= head + cm);
        lemma_included_concat(head, cm);
        if head.len() > 0 {
            assert(head.contains(head[0]));
        }
        if b.concept_map_id matches Some(id) && !has_concept_map(r, id) {
            assert(cm.contains(cm[0]));
        }
    } else if b.kind == BindingKind::NotationPattern || b.kind == BindingKind::ValueRange
        || b.kind == BindingKind::Concept {
        if out.len() > 0 {
            assert(out.contains(out[0]));
        }
    }
}

/// Completeness of the check: for every binding of every property of a
/// node type or an edge type, each registry id that the registries do not
/// hold (a code system, value set, notation pattern, value-range set,
/// concept, or the concept map of a value-set or code-system binding) is
/// among the reported dangling references, at that property and field,
/// naming that id.
pub proof fn lemma_missing_binding_targets_reported(m: crate::ir::OntologyModel, i: int, j: int, k: int)
    ensures
        0 <= i < m.node_types.len() && 0 <= j < m.node_types[i].properties.len() && 0 <= k
            < m.node_types[i].properties[j].bindings.len() ==> binding_reported(
            m.registries,
            m.node_types[i].label,
            m.node_types[i].properties[j].name,
            m.node_types[i].properties[j].bindings[k],
            dangling_refs(m),
        ),
        0 <= i < m.edge_types.len() && 0 <= j < m.edge_types[i].properties.len() && 0 <= k
            < m.edge_types[i].properties[j].bindings.len() ==> binding_reported(
            m.registries,
            m.edge_types[i].label,
            m.edge_types[i].properties[j].name,
            m.edge_types[i].properties[j].bindings[k],
            dangling_refs(m),
        ),
{
    let r = m.registries;
    let a = node_properties_refs(r, m.node_types);
    let b = edge_properties_refs(r, m.edge_types);
    let c = rules_refs(r, m.rules);
    let d = value_sets_refs(r, r.value_sets);
    let e = concept_maps_refs(r, r.concept_maps);
    let all = dangling_refs(m);
    assert(all == a + b + c + d + e);
    lemma_included_concat(a, b);
    lemma_included_concat(a + b, c);
    lemma_included_concat(a + b + c, d);
    lemma_included_concat(a + b + c + d, e);
    lemma_included_trans(a + b, a + b + c, a + b + c + d);
    lemma_included_trans(a + b, a + b + c + d, all);
    lemma_included_trans(a, a + b, all);
    lemma_included_trans(b, a + b, all);
    if 0 <= i < m.node_types.len() && 0 <= j < m.node_types[i].properties.len() && 0 <= k
        < m.node_types[i].properties[j].bindings.len() {
        let n = m.node_types[i];
        let p = n.properties[j];
        let bd = p.bindings[k];
        let one = binding_refs(r, n.label, p.name, bd);
        lemma_binding_reported(r, n.label, p.name, bd);
        lemma_bindings_include(r, n.label, p.name, p.bindings, k);
        lemma_properties_include(r, n.label, n.properties, j);
        lemma_node_properties_include(r, m.node_types, i);
        lemma_included_trans(one, bindings_refs(r, n.label, p.name, p.bindings), properties_refs(r, n.label, n.properties));
        lemma_included_trans(one, properties_refs(r, n.label, n.properties), a);
        lemma_included_trans(one, a, all);
    }
    if 0 <= i < m.edge_types.len() && 0 <= j < m.edge_types[i].properties.len() && 0 <= k
        < m.edge_types[i].properties[j].bindings.len() {
        let n = m.edge_types[i];
        let p = n.properties[j];
        let bd = p.bindings[k];
        let one = binding_refs(r, n.label, p.name, bd);
        lemma_binding_reported(r, n.label, p.name, bd);
        lemma_bindings_include(r, n.label, p.name, p.bindings, k);
        lemma_properties_include(r, n.label, n.properties, j);
        lemma_edge_properties_include(r, m.edge_types, i);
        lemma_included_trans(one, bindings_refs(r, n.label, p.name, p.bindings), properties_refs(r, n.label, n.properties));
        lemma_included_trans(one, properties_refs(r, n.label, n.properties), b);
        lemma_included_trans(one, b, all);
    }
}

proof fn lemma_constraints_include(r: RegistriesModel, name: Seq<char>, cs: Seq<ShaclModel>, j: int)
    requires
        0 <= j < cs.len(),
    ensures
        included(constraint_refs(r, name, cs[j]), constraints_refs(r, name, cs)),
    decreases cs.len(),
{
    let init = constraints_refs(r, name, cs.drop_last());
    let last = constraint_refs(r, name, cs.last());
    lemma_included_concat(init, last);
    if j < cs.len() - 1 {
        assert(cs.drop_last()[j] == cs[j]);
        lemma_constraints_include(r, name, cs.drop_last(), j);
        lemma_included_trans(constraint_refs(r, name, cs[j]), init, init + last);
    }
}

proof fn lemma_rules_include(r: RegistriesModel, rules: Seq<crate::rule::RuleModel>, i: int)
    requires
        0 <= i < rules.len(),
    ensures
        included(constraints_refs(r, rules[i].name.en, rules[i].constraints), rules_refs(r, rules)),
    decreases rules.len(),
{
    let init = rules_refs(r, rules.drop_last());
    let last = constraints_refs(r, rules.last().name.en, rules.last().constraints);
    lemma_included_concat(init, last);
    if i < rules.len() - 1 {
        assert(rules.drop_last()[i] == rules[i]);
        lemma_rules_include(r, rules.drop_last(), i);
        lemma_included_trans(constraints_refs(r, rules[i].name.en, rules[i].constraints), init, init + last);
    }
}

proof fn lemma_includes_include(r: RegistriesModel, name: Seq<char>, rules: Seq<IncludeRuleModel>, k: int)
    requires
        0 <= k < rules.len(),
    ensures
        included(include_refs(r, name, k, rules[k]), includes_refs(r, name, rules)),
    decreases rules.len(),
{
    let init = includes_refs(r, name, rules.drop_last());
    let last = include_refs(r, name, rules.len() - 1, rules.last());
    lemma_included_concat(init, last);
    if k < rules.len() - 1 {
        assert(rules.drop_last()[k] == rules[k]);
        lemma_includes_include(r, name, rules.drop_last(), k);
        lemma_included_trans(include_refs(r, name, k, rules[k]), init, init + last);
    }
}

proof fn lemma_value_sets_include(r: RegistriesModel, vss: Seq<ValueSetModel>, v: int)
    requires
        0 <= v < vss.len(),
    ensures
        included(includes_refs(r, vss[v].name, vss[v].composition), value_sets_refs(r, vss)),
    decreases vss.len(),
{
    let init = value_sets_refs(r, vss.drop_last());
    let last = includes_refs(r, vss.last().name, vss.last().composition);
    lemma_included_concat(init, last);
    if v < vss.len() - 1 {
        assert(vss.drop_last()[v] == vss[v]);
        lemma_value_sets_include(r, vss.drop_last(), v);
        lemma_included_trans(includes_refs(r, vss[v].name, vss[v].composition), init, init + last);
    }
}

proof fn lemma_concept_maps_include(r: RegistriesModel, cms: Seq<ConceptMapModel>, c: int)
    requires
        0 <= c < cms.len(),
    ensures
        included(concept_map_walk_refs(r, cms[c]), concept_maps_refs(r, cms)),
    decreases cms.len(),
{
    let init = concept_maps_refs(r, cms.drop_last());
    let last = concept_map_walk_refs(r, cms.last());
    lemma_included_concat(init, last);
    if c < cms.len() - 1 {
        assert(cms.drop_last()[c] == cms[c]);
        lemma_concept_maps_include(r, cms.drop_last(), c);
        lemma_included_trans(concept_map_walk_refs(r, cms[c]), init, init + last);
    }
}

/// No code system of the registries has id `id`.
pub open spec fn no_code_system(r: RegistriesModel, id: Seq<char>) -> bool {
    forall|c: int| 0 <= c < r.code_systems.len() ==> (#[trigger] r.code_systems[c]).id != id
}

/// Completeness of the check beyond properties: a rule constraint
/// `InValueSet` naming a value set that no entry has, or `MatchesPattern`
/// naming a notation pattern the registries lack, is reported at that
/// rule; a value-set composition rule whose code system does not exist is
/// reported at that rule of the value set; a concept map whose source or
/// target code system does not exist is reported at that field.
pub proof fn lemma_missing_registry_targets_reported(m: crate::ir::OntologyModel, i: int, j: int)
    ensures
        0 <= i < m.rules.len() && 0 <= j < m.rules[i].constraints.len() ==> {
            let c = m.rules[i].constraints[j];
            &&& (c.kind == ConstraintKind::InValueSet && forall|v: int|
                0 <= v < m.registries.value_sets.len() ==> (#[trigger] m.registries.value_sets[v]).id
                    != c.reference) ==> dangling_refs(m).contains(
                DanglingModel {
                    site: SiteModel::Rule { rule_name: m.rules[i].name.en, constraint_kind: "InValueSet"@ },
                    kind: DanglingKind::ValueSet,
                    missing_id: c.reference,
                },
            )
            &&& (c.kind == ConstraintKind::MatchesPattern && !m.registries.notation_patterns.contains(
                c.reference,
            )) ==> dangling_refs(m).contains(
                DanglingModel {
                    site: SiteModel::Rule { rule_name: m.rules[i].name.en, constraint_kind: "MatchesPattern"@ },
                    kind: DanglingKind::NotationPattern,
                    missing_id: c.reference,
                },
            )
        },
        0 <= i < m.registries.value_sets.len() && 0 <= j < m.registries.value_sets[i].composition.len()
            && no_code_system(m.registries, m.registries.value_sets[i].composition[j].system_id)
            ==> dangling_refs(m).contains(
            DanglingModel {
                site: SiteModel::ValueSet { value_set_name: m.registries.value_sets[i].name, rule_index: j },
                kind: DanglingKind::CodeSystem,
                missing_id: m.registries.value_sets[i].composition[j].system_id,
            },
        ),
        0 <= i < m.registries.concept_maps.len() && no_code_system(
            m.registries,
            m.registries.concept_maps[i].source_system_id,
        ) ==> dangling_refs(m).contains(
            DanglingModel {
                site: SiteModel::ConceptMap {
                    concept_map_name: m.registries.concept_maps[i].name,
                    field: "source_system_id"@,
                },
                kind: DanglingKind::CodeSystem,
                missing_id: m.registries.concept_maps[i].source_system_id,
            },
        ),
        0 <= i < m.registries.concept_maps.len() && no_code_system(
            m.registries,
            m.registries.concept_maps[i].target_system_id,
        ) ==> dangling_refs(m).contains(
            DanglingModel {
                site: SiteModel::ConceptMap {
                    concept_map_name: m.registries.concept_maps[i].name,
                    field: "target_system_id"@,
                },
                kind: DanglingKind::CodeSystem,
                missing_id: m.registries.concept_maps[i].target_system_id,
            },
        ),
{
    let r = m.registries;
    let a = node_properties_refs(r, m.node_types);
    let b = edge_properties_refs(r, m.edge_types);
    let c = rules_refs(r, m.rules);
    let d = value_sets_refs(r, r.value_sets);
    let e = concept_maps_refs(r, r.concept_maps);
    let all = dangling_refs(m);
    assert(all == a + b + c + d + e);
    lemma_included_concat(a + b, c);
    lemma_included_concat(a + b + c, d);
    lemma_included_concat(a + b + c + d, e);
    lemma_included_trans(c, a + b + c, a + b + c + d);
    lemma_included_trans(c, a + b + c + d, all);
    lemma_included_trans(d, a + b + c + d, all);
    if 0 <= i < m.rules.len() && 0 <= j < m.rules[i].constraints.len() {
        let rule = m.rules[i];
        let cn = rule.constraints[j];
        let one = constraint_refs(r, rule.name.en, cn);
        lemma_constraints_include(r, rule.name.en, rule.constraints, j);
        lemma_rules_include(r, m.rules, i);
        lemma_included_trans(one, constraints_refs(r, rule.name.en, rule.constraints), c);
        lemma_included_trans(one, c, all);
        if one.len() > 0 {
            assert(one.contains(one[0]));
        }
    }
    if 0 <= i < r.value_sets.len() && 0 <= j < r.value_sets[i].composition.len() && no_code_system(
        r,
        r.value_sets[i].composition[j].system_id,
    ) {
        let vs = r.value_sets[i];
        let inc = vs.composition[j];
        lemma_system_for_none(r.code_systems, inc.system_id);
        let one = include_refs(r, vs.name, j, inc);
        assert(one.contains(one[0]));
        lemma_includes_include(r, vs.name, vs.composition, j);
        lemma_value_sets_include(r, r.value_sets, i);
        lemma_included_trans(one, includes_refs(r, vs.name, vs.composition), d);
        lemma_included_trans(one, d, all);
    }
    if 0 <= i < r.concept_maps.len() {
        let cm = r.concept_maps[i];
        let one = concept_map_walk_refs(r, cm);
        lemma_concept_maps_include(r, r.concept_maps, i);
        lemma_included_trans(one, e, all);
        lemma_system_for_none(r.code_systems, cm.source_system_id);
        lemma_system_for_none(r.code_systems, cm.target_system_id);
        let src = system_for(r.code_systems, cm.source_system_id);
        let tgt = system_for(r.code_systems, cm.target_system_id);
        let s1: Seq<DanglingModel> = if src is None {
            seq![dangling(
                SiteModel::ConceptMap { concept_map_name: cm.name, field: "source_system_id"@ },
                DanglingKind::CodeSystem,
                cm.source_system_id,
            )]
        } else {
            Seq::empty()
        };
        let s2: Seq<DanglingModel> = if tgt is None {
            seq![dangling(
                SiteModel::ConceptMap { concept_map_name: cm.name, field: "target_system_id"@ },
                DanglingKind::CodeSystem,
                cm.target_system_id,
            )]
        } else {
            Seq::empty()
        };
        let s3 = mappings_refs(cm.name, src, tgt, cm.mappings);
        assert(one == s1 + s2 + s3);
        lemma_included_concat(s1, s2);
        lemma_included_concat(s1 + s2, s3);
        if src is None {
            assert(s1.contains(s1[0]));
        }
        if tgt is None {
            assert(s2.contains(s2[0]));
        }
    }
}

// ---------------------------------------------------------------------------
// Lookups
// ---------------------------------------------------------------------------

fn concept_known(registries: &Registries, id: &str) -> (r: bool)
    ensures
        r == has_concept(registries@, id@),
{
    let ghost m = registries@;
    let mut i: usize = 0;
    while i < registries.concepts.len()
        invariant
            i <= registries.concepts.len(),
            m == registries@,
            forall|j: int| 0 <= j < i ==> (#[trigger] m.concepts[j]).id != id@,
        decreases registries.concepts.len() - i,
    {
        assert(m.concepts[i as int] == registries.concepts@[i as int]@);
        if str_equal(registries.concepts[i].id.as_str(), id) {
            assert(m.concepts[i as int].id == id@);
            return true;
        }
        i = i + 1;
    }
    false
}

fn value_set_known(registries: &Registries, id: &str) -> (r: bool)
    ensures
        r == has_value_set(registries@, id@),
{
    let ghost m = registries@;
    let mut i: usize = 0;
    while i < registries.value_sets.len()
        invariant
            i <= registries.value_sets.len(),
            m == registries@,
            forall|j: int| 0 <= j < i ==> (#[trigger] m.value_sets[j]).id != id@,
        decreases registries.value_sets.len() - i,
    {
        if str_equal(registries.value_sets[i].id.as_str(), id) {
            assert(m.value_sets[i as int].id == id@);
            return true;
        }
        i = i + 1;
    }
    false
}

fn code_system_known(registries: &Registries, id: &str) -> (r: bool)
    ensures
        r == has_code_system(registries@, id@),
{
    let ghost m = registries@;
    let mut i: usize = 0;
    while i < registries.code_systems.len()
        invariant
            i <= registries.code_systems.len(),
            m == registries@,
            forall|j: int| 0 <= j < i ==> (#[trigger] m.code_systems[j]).id != id@,
        decreases registries.code_systems.len() - i,
    {
        if str_equal(registries.code_systems[i].id.as_str(), id) {
            assert(m.code_systems[i as int].id == id@);
            return true;
        }
        i = i + 1;
    }
    false
}

fn concept_map_known(registries: &Registries, id: &str) -> (r: bool)
    ensures
        r == has_concept_map(registries@, id@),
{
    let ghost m = registries@;
    let mut i: usize = 0;
    while i < registries.concept_maps.len()
        invariant
            i <= registries.concept_maps.len(),
            m == registries@,
            forall|j: int| 0 <= j < i ==> (#[trigger] m.concept_maps[j]).id != id@,
        decreases registries.concept_maps.len() - i,
    {
        if str_equal(registries.concept_maps[i].id.as_str(), id) {
            assert(m.concept_maps[i as int].id == id@);
            return true;
        }
        i = i + 1;
    }
    false
}

/// The code system a lookup by `id` finds, by index.
fn lookup_system(css: &Vec<CodeSystemDef>, id: &str) -> (r: Option<usize>)
    ensures
        match r {
            Some(k) => k < css@.len() && system_for(models(css@), id@) == Some(models(css@)[k as int]),
            None => system_for(models(css@), id@) is None,
        },
{
    let ghost s = models(css@);
    let mut found: Option<usize> = None;
    let mut i: usize = 0;
    assert(s.take(0) =~= Seq::<CodeSystemModel>::empty());
    while i < css.len()
        invariant
            i <= css.len(),
            s == models(css@),
            match found {
                Some(k) => k < i && system_for(s.take(i as int), id@) == Some(s[k as int]),
                None => system_for(s.take(i as int), id@) is None,
            },
        decreases css.len() - i,
    {
        assert(s.take(i + 1).drop_last() =~= s.take(i as int));
        assert(s.take(i + 1).last() == s[i as int]);
        if str_equal(css[i].id.as_str(), id) {
            found = Some(i);
        }
        i = i + 1;
    }
    assert(s.take(css.len() as int) =~= s);
    found
}

fn code_known(codes: &Vec<CodedValue>, code: &str) -> (r: bool)
    ensures
        r == has_code(models(codes@), code@),
{
    let mut i: usize = 0;
    while i < codes.len()
        invariant
            i <= codes.len(),
            forall|j: int| 0 <= j < i ==> (#[trigger] models(codes@)[j]).code != code@,
        decreases codes.len() - i,
    {
        if str_equal(codes[i].code.as_str(), code) {
            assert(models(codes@)[i as int].code == code@);
            return true;
        }
        i = i + 1;
    }
    false
}

fn code_id_known(codes: &Vec<CodedValue>, id: &str) -> (r: bool)
    ensures
        r == has_code_id(models(codes@), id@),
{
    let mut i: usize = 0;
    while i < codes.len()
        invariant
            i <= codes.len(),
            forall|j: int| 0 <= j < i ==> (#[trigger] models(codes@)[j]).id != id@,
        decreases codes.len() - i,
    {
        if str_equal(codes[i].id.as_str(), id) {
            assert(models(codes@)[i as int].id == id@);
            return true;
        }
        i = i + 1;
    }
    false
}

/// Whether a code system that a lookup by id reaches holds a code with
/// id `uid`.
fn coded_value_present(css: &Vec<CodeSystemDef>, uid: &str) -> (r: bool)
    ensures
        r == (exists|i: int|
            0 <= i < css@.len() && reachable_system(models(css@), i) && has_code_id(
                (#[trigger] models(css@)[i]).codes,
                uid@,
            )),
{
    let ghost s = models(css@);
    let mut i: usize = 0;
    while i < css.len()
        invariant
            i <= css.len(),
            s == models(css@),
            forall|j: int| 0 <= j < i ==> !(reachable_system(s, j) && has_code_id(#[trigger] s[j].codes, uid@)),
        decreases css.len() - i,
    {
        let mut later = false;
        let mut k: usize = i + 1;
        while k < css.len()
            invariant
                i < css.len(),
                i + 1 <= k <= css.len(),
                s == models(css@),
                !later ==> forall|j: int| i < j < k ==> (#[trigger] s[j]).id != s[i as int].id,
                later ==> !reachable_system(s, i as int),
            decreases css.len() - k,
        {
            if !later && str_equal(css[k].id.as_str(), css[i].id.as_str()) {
                assert(s[k as int].id == s[i as int].id);
                later = true;
            }
            k = k + 1;
        }
        if !later && code_id_known(&css[i].codes, uid) {
            assert(reachable_system(s, i as int));
            return true;
        }
        i = i + 1;
    }
    false
}

// ---------------------------------------------------------------------------
// Walks
// ---------------------------------------------------------------------------

fn push_ref(out: &mut Vec<DanglingReference>, source: RegistrySite, kind: DanglingKind, missing_id: String)
    ensures
        models(final(out)@) == models(old(out)@).push(dangling(source@, kind, missing_id@)),
{
    let ghost before = models(out@);
    out.push(DanglingReference { source, kind, missing_id });
    assert(models(out@) =~= before.push(dangling(source@, kind, missing_id@)));
}

fn property_site_of(owner_label: &str, property_name: &str, field: &'static str) -> (r: RegistrySite)
    ensures
        r@ == property_site(owner_label@, property_name@, field@),
{
    RegistrySite::Property {
        owner_label: owner_label.to_string(),
        property_name: property_name.to_string(),
        field,
    }
}

fn check_binding_concept_map(
    owner_label: &str,
    property_name: &str,
    concept_map_id: &Option<String>,
    registries: &Registries,
    out: &mut Vec<DanglingReference>,
)
    ensures
        models(final(out)@) == models(old(out)@) + concept_map_refs(
            registries@,
            owner_label@,
            property_name@,
            crate::model::opt_text(*concept_map_id),
        ),
{
    let ghost before = models(out@);
    match concept_map_id {
        Some(id) => {
            if !concept_map_known(registries, id.as_str()) {
                push_ref(
                    out,
                    property_site_of(owner_label, property_name, "bindings.concept_map_id"),
                    DanglingKind::ConceptMap,
                    id.clone(),
                );
            } else {
                assert(before + Seq::<DanglingModel>::empty() =~= before);
            }
        },
        None => {
            assert(before + Seq::<DanglingModel>::empty() =~= before);
        },
    }
}

fn binding_walk(
    owner_label: &str,
    property_name: &str,
    b: &PropertyBinding,
    registries: &Registries,
    out: &mut Vec<DanglingReference>,
)
    ensures
        models(final(out)@) == models(old(out)@) + binding_refs(registries@, owner_label@, property_name@, b@),
{
    let ghost before = models(out@);
    let ghost r = registries@;
    match b {
        PropertyBinding::ValueSet { id, concept_map_id, .. } => {
            if !value_set_known(registries, id.as_str()) {
                push_ref(
                    out,
                    property_site_of(owner_label, property_name, "bindings.value_set"),
                    DanglingKind::ValueSet,
                    id.clone(),
                );
            }
            let ghost mid = models(out@);
            check_binding_concept_map(owner_label, property_name, concept_map_id, registries, out);
            assert(models(out@) =~= before + binding_refs(r, owner_label@, property_name@, b@));
        },
        PropertyBinding::CodeSystem { id, concept_map_id, .. } => {
            if !code_system_known(registries, id.as_str()) {
                push_ref(
                    out,
                    property_site_of(owner_label, property_name, "bindings.code_system"),
                    DanglingKind::CodeSystem,
                    id.clone(),
                );
            }
            check_binding_concept_map(owner_label, property_name, concept_map_id, registries, out);
            assert(models(out@) =~= before + binding_refs(r, owner_label@, property_name@, b@));
        },
        PropertyBinding::NotationPattern { id, .. } => {
            if !contains_text(&registries.notation_patterns, id.as_str()) {
                push_ref(
                    out,
                    property_site_of(owner_label, property_name, "bindings.notation_pattern"),
                    DanglingKind::NotationPattern,
                    id.clone(),
                );
            }
            assert(models(out@) =~= before + binding_refs(r, owner_label@, property_name@, b@));
        },
        PropertyBinding::ValueRange { id, .. } => {
            if !contains_text(&registries.value_range_sets, id.as_str()) {
                push_ref(
                    out,
                    property_site_of(owner_label, property_name, "bindings.value_range"),
                    DanglingKind::ValueRangeSet,
                    id.clone(),
                );
            }
            assert(models(out@) =~= before + binding_refs(r, owner_label@, property_name@, b@));
        },
        PropertyBinding::Glossary { .. } => {
            assert(models(out@) =~= before + binding_refs(r, owner_label@, property_name@, b@));
        },
        PropertyBinding::Concept { id, .. } => {
            if !concept_known(registries, id.as_str()) {
                push_ref(
                    out,
                    property_site_of(owner_label, property_name, "bindings.concept"),
                    DanglingKind::Concept,
                    id.clone(),
                );
            }
            assert(models(out@) =~= before + binding_refs(r, owner_label@, property_name@, b@));
        },
    }
}

/// Append the dangling references of property `p` of the owner labelled
/// `owner_label`: each binding to a missing registry entry, in order,
/// then a unit that no reachable code system holds.
pub fn property_pointer_walk(
    owner_label: &str,
    p: &PropertyDef,
    registries: &Registries,
    out: &mut Vec<DanglingReference>,
)
    ensures
        models(final(out)@) == models(old(out)@) + property_refs(registries@, owner_label@, p@),
{
    let ghost before = models(out@);
    let ghost r = registries@;
    let ghost bs = models(p.bindings@);
    let mut i: usize = 0;
    assert(bs.take(0) =~= Seq::<BindingModel>::empty());
    assert(before + bindings_refs(r, owner_label@, p.name@, bs.take(0)) =~= before);
    while i < p.bindings.len()
        invariant
            i <= p.bindings.len(),
            r == registries@,
            bs == models(p.bindings@),
            models(out@) == before + bindings_refs(r, owner_label@, p.name@, bs.take(i as int)),
        decreases p.bindings.len() - i,
    {
        assert(bs.take(i + 1).drop_last() =~= bs.take(i as int));
        assert(bs.take(i + 1).last() == p.bindings@[i as int]@);
        let ghost mid = models(out@);
        binding_walk(owner_label, p.name.as_str(), &p.bindings[i], registries, out);
        assert(models(out@) =~= before + bindings_refs(r, owner_label@, p.name@, bs.take(i + 1)));
        i = i + 1;
    }
    assert(bs.take(p.bindings.len() as int) =~= bs);
    let ghost walked = models(out@);
    match &p.unit_id {
        Some(uid) => {
            if !coded_value_present(&registries.code_systems, uid.as_str()) {
                push_ref(out, property_site_of(owner_label, p.name.as_str(), "unit_id"), DanglingKind::CodedValue, uid.clone());
            } else {
                assert(walked + Seq::<DanglingModel>::empty() =~= walked);
            }
        },
        None => {
            assert(walked + Seq::<DanglingModel>::empty() =~= walked);
        },
    }
    assert(models(out@) =~= before + property_refs(r, owner_label@, p@));
}

fn properties_walk(
    owner_label: &str,
    ps: &Vec<PropertyDef>,
    registries: &Registries,
    out: &mut Vec<DanglingReference>,
)
    ensures
        models(final(out)@) == models(old(out)@) + properties_refs(registries@, owner_label@, models(ps@)),
{
    let ghost before = models(out@);
    let ghost s = models(ps@);
    let mut i: usize = 0;
    assert(s.take(0) =~= Seq::<PropertyModel>::empty());
    assert(before + properties_refs(registries@, owner_label@, s.take(0)) =~= before);
    while i < ps.len()
        invariant
            i <= ps.len(),
            s == models(ps@),
            models(out@) == before + properties_refs(registries@, owner_label@, s.take(i as int)),
        decreases ps.len() - i,
    {
        assert(s.take(i + 1).drop_last() =~= s.take(i as int));
        assert(s.take(i + 1).last() == ps@[i as int]@);
        property_pointer_walk(owner_label, &ps[i], registries, out);
        assert(models(out@) =~= before + properties_refs(registries@, owner_label@, s.take(i + 1)));
        i = i + 1;
    }
    assert(s.take(ps.len() as int) =~= s);
}

/// The kind name a rule site shows for constraint `c`.
pub fn constraint_kind_static(c: &ShaclConstraint) -> (r: &'static str)
    ensures
        r@ == constraint_kind_name(c@.kind),
{
    match c {
        ShaclConstraint::InValueSet { .. } => "InValueSet",
        ShaclConstraint::MatchesPattern { .. } => "MatchesPattern",
        ShaclConstraint::LessThan { .. } => "LessThan",
        ShaclConstraint::Equals { .. } => "Equals",
        ShaclConstraint::MinCount { .. }
        | ShaclConstraint::MaxCount { .. }
        | ShaclConstraint::MinLength { .. }
        | ShaclConstraint::MaxLength { .. }
        | ShaclConstraint::Disjoint { .. }
        | ShaclConstraint::UniqueKey { .. } => "Other",
    }
}

/// Append the dangling references of a rule: each constraint naming a
/// missing value set or notation pattern, in order.
pub fn rule_pointer_walk(rule: &RuleDef, registries: &Registries, out: &mut Vec<DanglingReference>)
    ensures
        models(final(out)@) == models(old(out)@) + constraints_refs(registries@, rule@.name.en, rule@.constraints),
{
    let ghost before = models(out@);
    let ghost r = registries@;
    let ghost cs = rule@.constraints;
    let mut i: usize = 0;
    assert(cs.take(0) =~= Seq::<ShaclModel>::empty());
    assert(before + constraints_refs(r, rule@.name.en, cs.take(0)) =~= before);
    while i < rule.constraints.len()
        invariant
            i <= rule.constraints.len(),
            r == registries@,
            cs == rule@.constraints,
            models(out@) == before + constraints_refs(r, rule@.name.en, cs.take(i as int)),
        decreases rule.constraints.len() - i,
    {
        assert(cs.take(i + 1).drop_last() =~= cs.take(i as int));
        assert(cs.take(i + 1).last() == rule.constraints@[i as int]@);
        let c = &rule.constraints[i];
        let ghost mid = models(out@);
        match c {
            ShaclConstraint::InValueSet { value_set_id, .. } => {
                if !value_set_known(registries, value_set_id.as_str()) {
                    push_ref(
                        out,
                        RegistrySite::Rule { rule_name: rule.name.en.clone(), constraint_kind: constraint_kind_static(c) },
                        DanglingKind::ValueSet,
                        value_set_id.clone(),
                    );
                } else {
                    assert(mid + constraint_refs(r, rule@.name.en, c@) =~= mid);
                }
            },
            ShaclConstraint::MatchesPattern { notation_pattern_id, .. } => {
                if !contains_text(&registries.notation_patterns, notation_pattern_id.as_str()) {
                    push_ref(
                        out,
                        RegistrySite::Rule { rule_name: rule.name.en.clone(), constraint_kind: constraint_kind_static(c) },
                        DanglingKind::NotationPattern,
                        notation_pattern_id.clone(),
                    );
                } else {
                    assert(mid + constraint_refs(r, rule@.name.en, c@) =~= mid);
                }
            },
            _ => {
                assert(mid + constraint_refs(r, rule@.name.en, c@) =~= mid);
            },
        }
        assert(models(out@) =~= before + constraints_refs(r, rule@.name.en, cs.take(i + 1)));
        i = i + 1;
    }
    assert(cs.take(rule.constraints.len() as int) =~= cs);
}

/// Append the dangling references of value set `vs`: for each
/// composition rule, in order, a missing code system, or else the listed
/// codes the system lacks, or a missing root code.
pub fn value_set_composition_walk(vs: &ValueSetDef, registries: &Registries, out: &mut Vec<DanglingReference>)
    ensures
        models(final(out)@) == models(old(out)@) + includes_refs(registries@, vs@.name, vs@.composition),
{
    let ghost before = models(out@);
    let ghost r = registries@;
    let ghost rules = vs@.composition;
    let mut idx: usize = 0;
    assert(rules.take(0) =~= Seq::<IncludeRuleModel>::empty());
    assert(before + includes_refs(r, vs@.name, rules.take(0)) =~= before);
    while idx < vs.composition.len()
        invariant
            idx <= vs.composition.len(),
            r == registries@,
            rules == vs@.composition,
            models(out@) == before + includes_refs(r, vs@.name, rules.take(idx as int)),
        decreases vs.composition.len() - idx,
    {
        assert(rules.take(idx + 1).drop_last() =~= rules.take(idx as int));
        assert(rules.take(idx + 1).last() == vs.composition@[idx as int]@);
        let rule = &vs.composition[idx];
        let ghost mid = models(out@);
        let ghost site = SiteModel::ValueSet { value_set_name: vs@.name, rule_index: idx as int };
        match lookup_system(&registries.code_systems, rule.system_id.as_str()) {
            None => {
                push_ref(
                    out,
                    RegistrySite::ValueSet { value_set_name: vs.name.clone(), rule_index: idx },
                    DanglingKind::CodeSystem,
                    rule.system_id.clone(),
                );
            },
            Some(k) => {
                let system = &registries.code_systems[k];
                match &rule.selector {
                    ValueSetSelector::Explicit { codes } => {
                        let ghost cs = texts(codes@);
                        let ghost f = missing_code(site, system@);
                        let mut j: usize = 0;
                        assert(cs.take(0) =~= Seq::<Seq<char>>::empty());
                        assert(mid + cs.take(0).filter_map(f) =~= mid);
                        while j < codes.len()
                            invariant
                                j <= codes.len(),
                                cs == texts(codes@),
                                f == missing_code(site, system@),
                                site == (SiteModel::ValueSet { value_set_name: vs@.name, rule_index: idx as int }),
                                models(out@) == mid + cs.take(j as int).filter_map(f),
                            decreases codes.len() - j,
                        {
                            assert(cs.take(j + 1).drop_last() =~= cs.take(j as int));
                            assert(cs.take(j + 1).last() == codes@[j as int]@);
                            let ghost inner = models(out@);
                            if !code_known(&system.codes, codes[j].as_str()) {
                                push_ref(
                                    out,
                                    RegistrySite::ValueSet { value_set_name: vs.name.clone(), rule_index: idx },
                                    DanglingKind::Code,
                                    codes[j].clone(),
                                );
                                assert(models(out@) =~= mid + cs.take(j + 1).filter_map(f));
                            } else {
                                assert(models(out@) =~= mid + cs.take(j + 1).filter_map(f));
                            }
                            j = j + 1;
                        }
                        assert(cs.take(codes.len() as int) =~= cs);
                    },
                    ValueSetSelector::DescendantsOf { root_id } => {
                        if !code_id_known(&system.codes, root_id.as_str()) {
                            push_ref(
                                out,
                                RegistrySite::ValueSet { value_set_name: vs.name.clone(), rule_index: idx },
                                DanglingKind::CodedValue,
                                root_id.clone(),
                            );
                        } else {
                            assert(mid + Seq::<DanglingModel>::empty() =~= mid);
                        }
                    },
                    _ => {
                        assert(mid + Seq::<DanglingModel>::empty() =~= mid);
                    },
                }
            },
        }
        assert(models(out@) =~= mid + include_refs(r, vs@.name, idx as int, rule@));
        assert(models(out@) =~= before + includes_refs(r, vs@.name, rules.take(idx + 1)));
        idx = idx + 1;
    }
    assert(rules.take(vs.composition.len() as int) =~= rules);
}

/// Append the dangling references of concept map `cm`: a missing source
/// system, a missing target system, then for each entry, in order, a
/// source code its (existing) source system lacks and a target code its
/// (existing) target system lacks.
pub fn concept_map_walk(cm: &ConceptMapDef, registries: &Registries, out: &mut Vec<DanglingReference>)
    ensures
        models(final(out)@) == models(old(out)@) + concept_map_walk_refs(registries@, cm@),
{
    let ghost before = models(out@);
    let ghost r = registries@;
    let source_system = lookup_system(&registries.code_systems, cm.source_system_id.as_str());
    let target_system = lookup_system(&registries.code_systems, cm.target_system_id.as_str());
    let ghost src = system_for(r.code_systems, cm@.source_system_id);
    let ghost tgt = system_for(r.code_systems, cm@.target_system_id);
    if source_system.is_none() {
        push_ref(
            out,
            RegistrySite::ConceptMap { concept_map_name: cm.name.clone(), field: "source_system_id" },
            DanglingKind::CodeSystem,
            cm.source_system_id.clone(),
        );
    }
    if target_system.is_none() {
        push_ref(
            out,
            RegistrySite::ConceptMap { concept_map_name: cm.name.clone(), field: "target_system_id" },
            DanglingKind::CodeSystem,
            cm.target_system_id.clone(),
        );
    }
    let ghost head = models(out@);
    assert(head =~= before + (if src is None {
        seq![dangling(
            SiteModel::ConceptMap { concept_map_name: cm@.name, field: "source_system_id"@ },
            DanglingKind::CodeSystem,
            cm@.source_system_id,
        )]
    } else {
        Seq::empty()
    }) + (if tgt is None {
        seq![dangling(
            SiteModel::ConceptMap { concept_map_name: cm@.name, field: "target_system_id"@ },
            DanglingKind::CodeSystem,
            cm@.target_system_id,
        )]
    } else {
        Seq::empty()
    }));
    let ghost ms = cm@.mappings;
    let mut idx: usize = 0;
    assert(ms.take(0) =~= Seq::<ConceptMappingModel>::empty());
    assert(head + mappings_refs(cm@.name, src, tgt, ms.take(0)) =~= head);
    while idx < cm.mappings.len()
        invariant
            idx <= cm.mappings.len(),
            r == registries@,
            ms == cm@.mappings,
            src == system_for(r.code_systems, cm@.source_system_id),
            tgt == system_for(r.code_systems, cm@.target_system_id),
            match source_system {
                Some(k) => k < registries.code_systems@.len() && src == Some(r.code_systems[k as int]),
                None => src is None,
            },
            match target_system {
                Some(k) => k < registries.code_systems@.len() && tgt == Some(r.code_systems[k as int]),
                None => tgt is None,
            },
            models(out@) == head + mappings_refs(cm@.name, src, tgt, ms.take(idx as int)),
        decreases cm.mappings.len() - idx,
    {
        assert(ms.take(idx + 1).drop_last() =~= ms.take(idx as int));
        assert(ms.take(idx + 1).last() == cm.mappings@[idx as int]@);
        let m = &cm.mappings[idx];
        let ghost mid = models(out@);
        match source_system {
            Some(k) => {
                if !code_known(&registries.code_systems[k].codes, m.source_code.as_str()) {
                    push_ref(
                        out,
                        RegistrySite::ConceptMapMapping {
                            concept_map_name: cm.name.clone(),
                            mapping_index: idx,
                            field: "source_code",
                        },
                        DanglingKind::Code,
                        m.source_code.clone(),
                    );
                }
            },
            None => {},
        }
        match target_system {
            Some(k) => {
                if !code_known(&registries.code_systems[k].codes, m.target_code.as_str()) {
                    push_ref(
                        out,
                        RegistrySite::ConceptMapMapping {
                            concept_map_name: cm.name.clone(),
                            mapping_index: idx,
                            field: "target_code",
                        },
                        DanglingKind::Code,
                        m.target_code.clone(),
                    );
                }
            },
            None => {},
        }
        assert(models(out@) =~= mid + mapping_refs(cm@.name, idx as int, src, tgt, m@));
        assert(models(out@) =~= head + mappings_refs(cm@.name, src, tgt, ms.take(idx + 1)));
        idx = idx + 1;
    }
    assert(ms.take(cm.mappings.len() as int) =~= ms);
}

impl RegistryReferenceCheck for OntologyIR {
    /// Every dangling reference, in order: the properties of node types
    /// (under their labels), then of edge types, then rules, value sets
    /// and concept maps.
    fn dangling_references(&self) -> (r: Vec<DanglingReference>)
        ensures
            models(r@) == dangling_refs(self@),
    {
        let ghost m = self@;
        let ghost reg = self@.registries;
        let mut out: Vec<DanglingReference> = Vec::new();
        assert(models(out@) =~= Seq::<DanglingModel>::empty());

        let mut i: usize = 0;
        assert(m.node_types.take(0) =~= Seq::<NodeModel>::empty());
        while i < self.node_types.len()
            invariant
                i <= self.node_types.len(),
                m == self@,
                reg == m.registries,
                models(out@) == node_properties_refs(reg, m.node_types.take(i as int)),
            decreases self.node_types.len() - i,
        {
            assert(m.node_types.take(i + 1).drop_last() =~= m.node_types.take(i as int));
            assert(m.node_types.take(i + 1).last() == self.node_types@[i as int]@);
            properties_walk(self.node_types[i].label.as_str(), &self.node_types[i].properties, &self.registries, &mut out);
            i = i + 1;
        }
        assert(m.node_types.take(self.node_types.len() as int) =~= m.node_types);
        let ghost p1 = models(out@);

        let mut k: usize = 0;
        assert(m.edge_types.take(0) =~= Seq::<EdgeModel>::empty());
        assert(p1 + edge_properties_refs(reg, m.edge_types.take(0)) =~= p1);
        while k < self.edge_types.len()
            invariant
                k <= self.edge_types.len(),
                m == self@,
                reg == m.registries,
                models(out@) == p1 + edge_properties_refs(reg, m.edge_types.take(k as int)),
            decreases self.edge_types.len() - k,
        {
            assert(m.edge_types.take(k + 1).drop_last() =~= m.edge_types.take(k as int));
            assert(m.edge_types.take(k + 1).last() == self.edge_types@[k as int]@);
            let ghost mid = models(out@);
            properties_walk(self.edge_types[k].label.as_str(), &self.edge_types[k].properties, &self.registries, &mut out);
            assert(models(out@) =~= p1 + edge_properties_refs(reg, m.edge_types.take(k + 1)));
            k = k + 1;
        }
        assert(m.edge_types.take(self.edge_types.len() as int) =~= m.edge_types);
        let ghost p2 = models(out@);

        let mut x: usize = 0;
        assert(m.rules.take(0) =~= Seq::<crate::rule::RuleModel>::empty());
        assert(p2 + rules_refs(reg, m.rules.take(0)) =~= p2);
        while x < self.rules.len()
            invariant
                x <= self.rules.len(),
                m == self@,
                reg == m.registries,
                models(out@) == p2 + rules_refs(reg, m.rules.take(x as int)),
            decreases self.rules.len() - x,
        {
            assert(m.rules.take(x + 1).drop_last() =~= m.rules.take(x as int));
            assert(m.rules.take(x + 1).last() == self.rules@[x as int]@);
            rule_pointer_walk(&self.rules[x], &self.registries, &mut out);
            assert(models(out@) =~= p2 + rules_refs(reg, m.rules.take(x + 1)));
            x = x + 1;
        }
        assert(m.rules.take(self.rules.len() as int) =~= m.rules);
        let ghost p3 = models(out@);

        let mut v: usize = 0;
        assert(reg.value_sets.take(0) =~= Seq::<ValueSetModel>::empty());
        assert(p3 + value_sets_refs(reg, reg.value_sets.take(0)) =~= p3);
        while v < self.registries.value_sets.len()
            invariant
                v <= self.registries.value_sets.len(),
                m == self@,
                reg == m.registries,
                models(out@) == p3 + value_sets_refs(reg, reg.value_sets.take(v as int)),
            decreases self.registries.value_sets.len() - v,
        {
            assert(reg.value_sets.take(v + 1).drop_last() =~= reg.value_sets.take(v as int));
            assert(reg.value_sets.take(v + 1).last() == self.registries.value_sets@[v as int]@);
            value_set_composition_walk(&self.registries.value_sets[v], &self.registries, &mut out);
            assert(models(out@) =~= p3 + value_sets_refs(reg, reg.value_sets.take(v + 1)));
            v = v + 1;
        }
        assert(reg.value_sets.take(self.registries.value_sets.len() as int) =~= reg.value_sets);
        let ghost p4 = models(out@);

        let mut c: usize = 0;
        assert(reg.concept_maps.take(0) =~= Seq::<ConceptMapModel>::empty());
        assert(p4 + concept_maps_refs(reg, reg.concept_maps.take(0)) =~= p4);
        while c < self.registries.concept_maps.len()
            invariant
                c <= self.registries.concept_maps.len(),
                m == self@,
                reg == m.registries,
                models(out@) == p4 + concept_maps_refs(reg, reg.concept_maps.take(c as int)),
            decreases self.registries.concept_maps.len() - c,
        {
            assert(reg.concept_maps.take(c + 1).drop_last() =~= reg.concept_maps.take(c as int));
            assert(reg.concept_maps.take(c + 1).last() == self.registries.concept_maps@[c as int]@);
            concept_map_walk(&self.registries.concept_maps[c], &self.registries, &mut out);
            assert(models(out@) =~= p4 + concept_maps_refs(reg, reg.concept_maps.take(c + 1)));
            c = c + 1;
        }
        assert(reg.concept_maps.take(self.registries.concept_maps.len() as int) =~= reg.concept_maps);
        out
    }
}

// ---------------------------------------------------------------------------
// Diagnostics
// ---------------------------------------------------------------------------

/// A structured diagnostic: a stable code the UI catalogue keys on,
/// named parameters in the order they were added, and a message.
#[derive(Debug, Clone, PartialEq, Eq)]
pub struct DiagnosticMessage {
    pub code: String,
    pub params: Vec<(String, String)>,
    pub message: String,
}

/// Model of a [`DiagnosticMessage`].
pub struct DiagnosticModel {
    pub code: Seq<char>,
    pub params: Seq<(Seq<char>, Seq<char>)>,
    pub message: Seq<char>,
}

impl View for DiagnosticMessage {
    type V = DiagnosticModel;

    open spec fn view(&self) -> DiagnosticModel {
        DiagnosticModel {
            code: self.code@,
            params: self.params@.map_values(|p: (String, String)| (p.0@, p.1@)),
            message: self.message@,
        }
    }
}

/// The name a diagnostic uses for a registry kind.
pub open spec fn kind_label(k: DanglingKind) -> Seq<char> {
    match k {
        DanglingKind::Concept => "concept"@,
        DanglingKind::ValueSet => "value_set"@,
        DanglingKind::NotationPattern => "notation_pattern"@,
        DanglingKind::ValueRangeSet => "value_range_set"@,
        DanglingKind::CodeSystem => "code_system"@,
        DanglingKind::CodedValue => "coded_value"@,
        DanglingKind::Code => "code"@,
        DanglingKind::ConceptMap => "concept_map"@,
    }
}

/// How a diagnostic names the site of a dangling pointer.
pub open spec fn site_label(site: SiteModel) -> Seq<char> {
    match site {
        SiteModel::Property { owner_label, property_name, field } => "property `"@ + owner_label + "."@
            + property_name + "."@ + field + "`"@,
        SiteModel::Rule { rule_name, constraint_kind } => "rule `"@ + rule_name + "` ("@ + constraint_kind
            + " constraint)"@,
        SiteModel::ValueSet { value_set_name, rule_index } => "value set `"@ + value_set_name
            + "` (composition rule "@ + decimal(rule_index as nat) + ")"@,
        SiteModel::ConceptMap { concept_map_name, field } => "concept map `"@ + concept_map_name + "."@ + field
            + "`"@,
        SiteModel::ConceptMapMapping { concept_map_name, mapping_index, field } => "concept map `"@
            + concept_map_name + "` mapping "@ + decimal(mapping_index as nat) + " field `"@ + field + "`"@,
    }
}

/// The parameters describing a site.
pub open spec fn site_params(site: SiteModel) -> Seq<(Seq<char>, Seq<char>)> {
    match site {
        SiteModel::Property { owner_label, property_name, field } => seq![
            ("site_kind"@, "property"@),
            ("owner_label"@, owner_label),
            ("property_name"@, property_name),
            ("field"@, field),
        ],
        SiteModel::Rule { rule_name, constraint_kind } => seq![
            ("site_kind"@, "rule"@),
            ("rule_name"@, rule_name),
            ("constraint_kind"@, constraint_kind),
        ],
        SiteModel::ValueSet { value_set_name, rule_index } => seq![
            ("site_kind"@, "value_set"@),
            ("value_set_name"@, value_set_name),
            ("rule_index"@, decimal(rule_index as nat)),
        ],
        SiteModel::ConceptMap { concept_map_name, field } => seq![
            ("site_kind"@, "concept_map"@),
            ("concept_map_name"@, concept_map_name),
            ("field"@, field),
        ],
        SiteModel::ConceptMapMapping { concept_map_name, mapping_index, field } => seq![
            ("site_kind"@, "concept_map_mapping"@),
            ("concept_map_name"@, concept_map_name),
            ("mapping_index"@, decimal(mapping_index as nat)),
            ("field"@, field),
        ],
    }
}

/// The diagnostic for one dangling reference.
pub open spec fn rendered(d: DanglingModel) -> DiagnosticModel {
    DiagnosticModel {
        code: "ontology.validate.integrity.dangling_"@ + kind_label(d.kind),
        params: site_params(d.site) + seq![("kind"@, kind_label(d.kind)), ("missing_id"@, d.missing_id)],
        message: site_label(d.site) + " references unknown "@ + kind_label(d.kind) + " `"@ + d.missing_id + "`"@,
    }
}

/// Diagnostics of dangling references.
pub open spec fn renderer() -> spec_fn(DanglingModel) -> DiagnosticModel {
    |d: DanglingModel| rendered(d)
}

fn kind_text(k: DanglingKind) -> (r: &'static str)
    ensures
        r@ == kind_label(k),
{
    match k {
        DanglingKind::Concept => "concept",
        DanglingKind::ValueSet => "value_set",
        DanglingKind::NotationPattern => "notation_pattern",
        DanglingKind::ValueRangeSet => "value_range_set",
        DanglingKind::CodeSystem => "code_system",
        DanglingKind::CodedValue => "coded_value",
        DanglingKind::Code => "code",
        DanglingKind::ConceptMap => "concept_map",
    }
}

fn param(key: &str, value: &str) -> (r: (String, String))
    ensures
        r.0@ == key@,
        r.1@ == value@,
{
    (key.to_string(), value.to_string())
}

fn render_one(d: &DanglingReference) -> (r: DiagnosticMessage)
    ensures
        r@ == rendered(d@),
{
    let kind = kind_text(d.kind);
    let mut code = String::from_str("ontology.validate.integrity.dangling_");
    code.append(kind);
    let mut params: Vec<(String, String)> = Vec::new();
    let mut label: String;
    match &d.source {
        RegistrySite::Property { owner_label, property_name, field } => {
            label = String::from_str("property `");
            label.append(owner_label.as_str());
            label.append(".");
            label.append(property_name.as_str());
            label.append(".");
            label.append(field);
            label.append("`");
            params.push(param("site_kind", "property"));
            params.push(param("owner_label", owner_label.as_str()));
            params.push(param("property_name", property_name.as_str()));
            params.push(param("field", field));
        },
        RegistrySite::Rule { rule_name, constraint_kind } => {
            label = String::from_str("rule `");
            label.append(rule_name.as_str());
            label.append("` (");
            label.append(constraint_kind);
            label.append(" constraint)");
            params.push(param("site_kind", "rule"));
            params.push(param("rule_name", rule_name.as_str()));
            params.push(param("constraint_kind", constraint_kind));
        },
        RegistrySite::ValueSet { value_set_name, rule_index } => {
            let index = decimal_string(*rule_index as u64);
            label = String::from_str("value set `");
            label.append(value_set_name.as_str());
            label.append("` (composition rule ");
            label.append(index.as_str());
            label.append(")");
            params.push(param("site_kind", "value_set"));
            params.push(param("value_set_name", value_set_name.as_str()));
            params.push(param("rule_index", index.as_str()));
        },
        RegistrySite::ConceptMap { concept_map_name, field } => {
            label = String::from_str("concept map `");
            label.append(concept_map_name.as_str());
            label.append(".");
            label.append(field);
            label.append("`");
            params.push(param("site_kind", "concept_map"));
            params.push(param("concept_map_name", concept_map_name.as_str()));
            params.push(param("field", field));
        },
        RegistrySite::ConceptMapMapping { concept_map_name, mapping_index, field } => {
            let index = decimal_string(*mapping_index as u64);
            label = String::from_str("concept map `");
            label.append(concept_map_name.as_str());
            label.append("` mapping ");
            label.append(index.as_str());
            label.append(" field `");
            label.append(field);
            label.append("`");
            params.push(param("site_kind", "concept_map_mapping"));
            params.push(param("concept_map_name", concept_map_name.as_str()));
            params.push(param("mapping_index", index.as_str()));
            params.push(param("field", field));
        },
    }
    params.push(param("kind", kind));
    params.push(param("missing_id", d.missing_id.as_str()));
    let mut message = label;
    message.append(" references unknown ");
    message.append(kind);
    message.append(" `");
    message.append(d.missing_id.as_str());
    message.append("`");
    let r = DiagnosticMessage { code, params, message };
    assert(r@.params =~= site_params(d@.site) + seq![("kind"@, kind_label(d.kind)), ("missing_id"@, d@.missing_id)]);
    r
}

/// One diagnostic per dangling reference, in order. Its code is
/// `ontology.validate.integrity.dangling_` and the kind; its parameters
/// describe the site, then give the kind and the missing id; its message
/// names the site, the kind and the missing id.
pub fn render_dangling_references(refs: &[DanglingReference]) -> (r: Vec<DiagnosticMessage>)
    ensures
        models(r@) == models(refs@).map_values(renderer()),
{
    let mut out: Vec<DiagnosticMessage> = Vec::new();
    let mut i: usize = 0;
    while i < refs.len()
        invariant
            i <= refs@.len(),
            out@.len() == i,
            forall|j: int| 0 <= j < i ==> (#[trigger] out@[j])@ == rendered(refs@[j]@),
        decreases refs@.len() - i,
    {
        out.push(render_one(&refs[i]));
        i = i + 1;
    }
    assert(models(out@) =~= models(refs@).map_values(renderer()));
    out
}

} // verus!
