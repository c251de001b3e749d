//! Typed admin edits on an ontology's mappings, rules, type lifecycle
//! and property bindings.
//!
//! Each [`OntologyEditOp`] classifies into a [`ChangeType`] for approval
//! routing and applies in place; a failed edit leaves the ontology as
//! it was. The effect of every edit is stated by [`edit_step`].

use vstd::prelude::*;

use crate::clock::now_epoch_seconds;

use crate::binding::{handle_of, BindingModel, HandleModel, PropertyBinding, PropertyBindingHandle};
use crate::change_routing::{
    decision_of, default_routing_of, ChangeType, DecisionModel, RoleRef, ScopeKind, ScopeValue,
};
use crate::command::{
    edit_edge, edit_node, keyed_push, keyed_remove, keyed_replace, locate_owner, message,
    owner_props, owner_props_copy, push_keyed, put_owner_props, remove_keyed, replace_keyed,
    with_owner_props, PropertyOwner,
};
use crate::ir::{
    EdgeModel, EdgeTypeDef, LinkMappingDef, NodeModel, NodeTypeDef, ObjectMappingDef, OntologyIR,
    OntologyModel, PropertyDef, PropertyModel,
};
use crate::model::{
    copy_vec, first_match, has_key, key_is, lemma_first_match_props, lemma_first_match_push_absent,
    lemma_first_match_scan, models, position_of, DeepCopy, Keyed,
};
use crate::concept::{ConceptDef, ConceptModel};
use crate::glossary::{GlossaryTermDef, GlossaryTermModel};
use crate::registry::{
    CodeSystemDef, CodeSystemModel, CodedValue, CodedValueModel, ConceptMapDef, RegistriesModel,
    ValueSetDef,
};
use crate::rule::RuleDef;
use crate::text::str_equal;

verus! {

/// The node or edge type that owns a property.
#[derive(Debug, Clone, PartialEq, Eq)]
pub enum PropertyOwnerPath {
    Node { type_id: String },
    Edge { type_id: String },
}

/// The property owner a path names.
pub open spec fn owner_of(p: PropertyOwnerPath) -> PropertyOwner {
    match p {
        PropertyOwnerPath::Node { type_id } => PropertyOwner::Node { type_id },
        PropertyOwnerPath::Edge { type_id } => PropertyOwner::Edge { type_id },
    }
}

impl PropertyOwnerPath {
    fn owner(&self) -> (r: PropertyOwner)
        ensures
            r == owner_of(*self),
    {
        match self {
            PropertyOwnerPath::Node { type_id } => PropertyOwner::Node { type_id: type_id.clone() },
            PropertyOwnerPath::Edge { type_id } => PropertyOwner::Edge { type_id: type_id.clone() },
        }
    }
}

/// A typed admin edit.
#[derive(Debug)]
pub enum OntologyEditOp {
    /// Register a code system; fails when the id is taken.
    CreateCodeSystem { def: CodeSystemDef },
    /// Replace a code system in place; its id must match the path id.
    UpdateCodeSystem { id: String, def: CodeSystemDef },
    /// Remove a code system by id.
    DeleteCodeSystem { id: String },
    /// Add a code to a code system; fails when the code id is taken there.
    CreateCodedValue { code_system_id: String, value: CodedValue },
    /// Replace a code of a code system; its id must match the path id.
    UpdateCodedValue { code_system_id: String, id: String, value: CodedValue },
    /// Remove every code with the id from a code system.
    DeleteCodedValue { code_system_id: String, id: String },
    CreateObjectMapping { mapping: ObjectMappingDef },
    UpdateObjectMapping { id: String, mapping: ObjectMappingDef },
    DeleteObjectMapping { id: String },
    CreateLinkMapping { mapping: LinkMappingDef },
    UpdateLinkMapping { id: String, mapping: LinkMappingDef },
    DeleteLinkMapping { id: String },
    /// Register a concept map; fails when the id is taken.
    CreateConceptMap { def: ConceptMapDef },
    /// Replace a concept map in place; its id must match the path id.
    UpdateConceptMap { id: String, def: ConceptMapDef },
    /// Remove a concept map by id.
    DeleteConceptMap { id: String },
    /// Register a value set; fails when the id is taken.
    CreateValueSet { def: ValueSetDef },
    /// Replace a value set in place; its id must match the path id.
    UpdateValueSet { id: String, def: ValueSetDef },
    /// Remove a value set by id.
    DeleteValueSet { id: String },
    /// Register a concept; fails when the id is taken or the concept
    /// would be its own broader ancestor.
    CreateConcept { def: ConceptDef },
    /// Replace a concept in place; its id must match the path id, and it
    /// must not become its own broader ancestor.
    UpdateConcept { id: String, def: ConceptDef },
    /// Remove a concept by id; fails while a glossary term names it.
    DeleteConcept { id: String },
    /// Register a glossary term; fails when the id is taken.
    CreateGlossaryTerm { def: GlossaryTermDef },
    /// Replace a glossary term in place; its id must match the path id.
    UpdateGlossaryTerm { id: String, def: GlossaryTermDef },
    /// Remove a glossary term by id.
    DeleteGlossaryTerm { id: String },
    /// Declare a new rule; fails when the id is taken.
    CreateRule { def: RuleDef },
    /// Replace a rule in place; its id must match the path id.
    UpdateRule { id: String, def: RuleDef },
    /// Remove a rule by id.
    DeleteRule { id: String },
    /// Mark a node type deprecated at the current time, recording its
    /// successor.
    DeprecateNodeType { id: String, replaced_by_id: Option<String> },
    /// Mark an edge type deprecated at the current time.
    DeprecateEdgeType { id: String, replaced_by_id: Option<String> },
    /// Add a binding to a property, replacing the first binding with the
    /// same target.
    BindProperty { owner: PropertyOwnerPath, property_id: String, binding: PropertyBinding },
    /// Remove every binding of a property with the given target.
    UnbindProperty {
        owner: PropertyOwnerPath,
        property_id: String,
        target: PropertyBindingHandle,
    },
}

/// The change type an edit routes as.
pub open spec fn change_type_of(op: OntologyEditOp) -> ChangeType {
    match op {
        OntologyEditOp::CreateCodeSystem { .. }
        | OntologyEditOp::UpdateCodeSystem { .. }
        | OntologyEditOp::CreateCodedValue { .. }
        | OntologyEditOp::UpdateCodedValue { .. } => ChangeType::CodedValueCreate,
        OntologyEditOp::DeleteCodeSystem { .. } | OntologyEditOp::DeleteCodedValue { .. } =>
            ChangeType::CodedValueDeprecate,
        OntologyEditOp::CreateConcept { .. }
        | OntologyEditOp::UpdateConcept { .. }
        | OntologyEditOp::DeleteConcept { .. }
        | OntologyEditOp::CreateGlossaryTerm { .. }
        | OntologyEditOp::UpdateGlossaryTerm { .. }
        | OntologyEditOp::DeleteGlossaryTerm { .. }
        | OntologyEditOp::CreateConceptMap { .. }
        | OntologyEditOp::UpdateConceptMap { .. }
        | OntologyEditOp::DeleteConceptMap { .. }
        | OntologyEditOp::CreateValueSet { .. }
        | OntologyEditOp::UpdateValueSet { .. }
        | OntologyEditOp::DeleteValueSet { .. } => ChangeType::TerminologyRegistryUpdate,
        OntologyEditOp::CreateObjectMapping { .. }
        | OntologyEditOp::UpdateObjectMapping { .. }
        | OntologyEditOp::DeleteObjectMapping { .. }
        | OntologyEditOp::CreateLinkMapping { .. }
        | OntologyEditOp::UpdateLinkMapping { .. }
        | OntologyEditOp::DeleteLinkMapping { .. } => ChangeType::TableMerge,
        OntologyEditOp::BindProperty { .. } | OntologyEditOp::UnbindProperty { .. } =>
            ChangeType::SemanticBindingUpdate,
        OntologyEditOp::DeprecateNodeType { .. } | OntologyEditOp::DeprecateEdgeType { .. } =>
            ChangeType::StaleConceptDeprecate,
        OntologyEditOp::CreateRule { .. } => ChangeType::RuleCreate,
        OntologyEditOp::UpdateRule { .. } => ChangeType::RuleModify,
        OntologyEditOp::DeleteRule { .. } => ChangeType::RuleDelete,
    }
}

/// Bindings with the same target as a handle.
pub open spec fn same_target(h: HandleModel) -> spec_fn(BindingModel) -> bool {
    |x: BindingModel| handle_of(x) == h
}

/// Bindings after binding `b`: the first with the same target is
/// replaced, or `b` is appended.
pub open spec fn bind(bs: Seq<BindingModel>, b: BindingModel) -> Seq<BindingModel> {
    match first_match(bs, same_target(handle_of(b))) {
        Some(i) => bs.update(i, b),
        None => bs.push(b),
    }
}

/// Binding is idempotent: binding the same binding a second time leaves
/// a property's bindings as binding it once did.
pub proof fn lemma_bind_idempotent(bs: Seq<BindingModel>, b: BindingModel)
    ensures
        bind(bind(bs, b), b) == bind(bs, b),
{
    let p = same_target(handle_of(b));
    lemma_first_match_props(bs, p);
    let bs1 = bind(bs, b);
    assert(p(b));
    match first_match(bs, p) {
        Some(i) => {
            assert forall|j: int| 0 <= j < i implies !p(#[trigger] bs1[j]) by {
                assert(bs1[j] == bs[j]);
            }
            lemma_first_match_scan(bs1, p, i);
            assert(bs1.update(i, b) =~= bs1);
        },
        None => {
            let n = bs.len() as int;
            assert forall|j: int| 0 <= j < n implies !p(#[trigger] bs1[j]) by {
                assert(bs1[j] == bs[j]);
            }
            lemma_first_match_scan(bs1, p, n);
            assert(bs1.update(n, b) =~= bs1);
        },
    }
}

/// Bindings without those targeting `h`.
pub open spec fn unbind(bs: Seq<BindingModel>, h: HandleModel) -> Seq<BindingModel> {
    bs.filter(|x: BindingModel| handle_of(x) != h)
}

/// Replace property `pid` of an existing owner by `f` of it.
pub open spec fn edit_property(
    m: OntologyModel,
    owner: PropertyOwner,
    pid: Seq<char>,
    f: spec_fn(PropertyModel) -> PropertyModel,
) -> Option<OntologyModel> {
    match owner_props(m, owner) {
        Some(props) => match first_match(props, key_is::<PropertyDef>(pid)) {
            Some(k) => Some(with_owner_props(m, owner, props.update(k, f(props[k])))),
            None => None,
        },
        None => None,
    }
}

/// A property with `b` bound.
pub open spec fn bind_fn(b: BindingModel) -> spec_fn(PropertyModel) -> PropertyModel {
    |p: PropertyModel| PropertyModel { bindings: bind(p.bindings, b), ..p }
}

/// A property with target `h` unbound.
pub open spec fn unbind_fn(h: HandleModel) -> spec_fn(PropertyModel) -> PropertyModel {
    |p: PropertyModel| PropertyModel { bindings: unbind(p.bindings, h), ..p }
}

/// A node type deprecated at `now`.
pub open spec fn deprecate_node_fn(now: i64, successor: Option<Seq<char>>) -> spec_fn(NodeModel) -> NodeModel {
    |n: NodeModel| NodeModel { deprecated_at: Some(now), replaced_by_id: successor, ..n }
}

/// An edge type deprecated at `now`.
pub open spec fn deprecate_edge_fn(now: i64, successor: Option<Seq<char>>) -> spec_fn(EdgeModel) -> EdgeModel {
    |e: EdgeModel| EdgeModel { deprecated_at: Some(now), replaced_by_id: successor, ..e }
}

/// The ontology with its code systems replaced.
pub open spec fn with_code_systems(m: OntologyModel, s: Seq<CodeSystemModel>) -> OntologyModel {
    OntologyModel { registries: RegistriesModel { code_systems: s, ..m.registries }, ..m }
}

/// The ontology with its value sets replaced.
pub open spec fn with_value_sets(m: OntologyModel, s: Seq<crate::registry::ValueSetModel>) -> OntologyModel {
    OntologyModel { registries: RegistriesModel { value_sets: s, ..m.registries }, ..m }
}

/// The ontology with its concept maps replaced.
pub open spec fn with_concept_maps(m: OntologyModel, s: Seq<crate::registry::ConceptMapModel>) -> OntologyModel {
    OntologyModel { registries: RegistriesModel { concept_maps: s, ..m.registries }, ..m }
}

/// The ontology with its concepts replaced by `s`.
pub open spec fn with_concepts(m: OntologyModel, s: Seq<ConceptModel>) -> OntologyModel {
    OntologyModel { registries: RegistriesModel { concepts: s, ..m.registries }, ..m }
}

/// The ontology with its glossary terms replaced by `s`.
pub open spec fn with_glossary_terms(m: OntologyModel, s: Seq<GlossaryTermModel>) -> OntologyModel {
    OntologyModel { registries: RegistriesModel { glossary_terms: s, ..m.registries }, ..m }
}

/// The broader concept of concept `id`: that of the first concept with
/// that id.
pub open spec fn broader_of(cs: Seq<ConceptModel>, id: Seq<char>) -> Option<Seq<char>> {
    match first_match(cs, key_is::<ConceptDef>(id)) {
        Some(i) => cs[i].broader,
        None => None,
    }
}

/// Climbing at most `n` broader links from concept `from` meets `target`.
pub open spec fn climbs_to(cs: Seq<ConceptModel>, from: Seq<char>, target: Seq<char>, n: nat) -> bool
    decreases n,
{
    if n == 0 {
        false
    } else {
        match broader_of(cs, from) {
            Some(p) => p == target || climbs_to(cs, p, target, (n - 1) as nat),
            None => false,
        }
    }
}

/// Concept `id` is its own broader ancestor: its broader chain comes
/// back to it within as many links as there are concepts.
pub open spec fn broader_cycle(cs: Seq<ConceptModel>, id: Seq<char>) -> bool {
    climbs_to(cs, id, id, cs.len())
}

/// Some glossary term names concept `id`.
pub open spec fn concept_in_use(ts: Seq<GlossaryTermModel>, id: Seq<char>) -> bool {
    exists|k: int| 0 <= k < ts.len() && (#[trigger] ts[k]).concept_id == Some(id)
}

/// The concepts after a concept edit, when it is accepted.
pub open spec fn concept_step(op: OntologyEditOp, m: OntologyModel) -> Option<Seq<ConceptModel>> {
    let cs = m.registries.concepts;
    match op {
        OntologyEditOp::CreateConcept { def } => match keyed_push::<ConceptDef>(cs, def@) {
            Some(s) => if broader_cycle(s, def@.id) {
                None
            } else {
                Some(s)
            },
            None => None,
        },
        OntologyEditOp::UpdateConcept { id, def } => match keyed_replace::<ConceptDef>(cs, id@, def@) {
            Some(s) => if broader_cycle(s, id@) {
                None
            } else {
                Some(s)
            },
            None => None,
        },
        OntologyEditOp::DeleteConcept { id } => match keyed_remove::<ConceptDef>(cs, id@) {
            Some(s) => if concept_in_use(m.registries.glossary_terms, id@) {
                None
            } else {
                Some(s)
            },
            None => None,
        },
        _ => None,
    }
}

/// The message of a concept edit that would close a broader cycle.
pub open spec fn cycle_text(id: Seq<char>) -> Seq<char> {
    "concept.broader.cycle: concept `"@ + id + "` would be its own broader ancestor"@
}

/// The message of the deletion of a concept a glossary term still names.
pub open spec fn in_use_text(id: Seq<char>) -> Seq<char> {
    "concept.in_use_by_glossary_term: concept `"@ + id + "` is still named by a glossary term"@
}

/// Replace the codes of the first code system with id `sys` by what
/// `f` makes of them; `None` when there is no such system or `f` fails.
pub open spec fn edit_codes(
    m: OntologyModel,
    sys: Seq<char>,
    f: spec_fn(Seq<CodedValueModel>) -> Option<Seq<CodedValueModel>>,
) -> Option<OntologyModel> {
    let css = m.registries.code_systems;
    match first_match(css, key_is::<CodeSystemDef>(sys)) {
        Some(i) => match f(css[i].codes) {
            Some(codes) => Some(with_code_systems(m, css.update(i, CodeSystemModel { codes, ..css[i] }))),
            None => None,
        },
        None => None,
    }
}

/// Codes without those with id `id`; `None` when none has it.
pub open spec fn remove_codes(codes: Seq<CodedValueModel>, id: Seq<char>) -> Option<Seq<CodedValueModel>> {
    if crate::model::has_key::<CodedValue>(codes, id) {
        Some(codes.filter(|c: CodedValueModel| c.id != id))
    } else {
        None
    }
}

/// The effect of an edit applied at time `now` (seconds since the
/// epoch); `None` when the edit is rejected.
pub open spec fn edit_step(op: OntologyEditOp, m: OntologyModel, now: i64) -> Option<OntologyModel> {
    match op {
        OntologyEditOp::CreateCodeSystem { def } => match keyed_push::<CodeSystemDef>(
            m.registries.code_systems,
            def@,
        ) {
            Some(s) => Some(with_code_systems(m, s)),
            None => None,
        },
        OntologyEditOp::UpdateCodeSystem { id, def } => match keyed_replace::<CodeSystemDef>(
            m.registries.code_systems,
            id@,
            def@,
        ) {
            Some(s) => Some(with_code_systems(m, s)),
            None => None,
        },
        OntologyEditOp::DeleteCodeSystem { id } => match keyed_remove::<CodeSystemDef>(
            m.registries.code_systems,
            id@,
        ) {
            Some(s) => Some(with_code_systems(m, s)),
            None => None,
        },
        OntologyEditOp::CreateConcept { .. }
        | OntologyEditOp::UpdateConcept { .. }
        | OntologyEditOp::DeleteConcept { .. } => match concept_step(op, m) {
            Some(s) => Some(with_concepts(m, s)),
            None => None,
        },
        OntologyEditOp::CreateGlossaryTerm { def } => match keyed_push::<GlossaryTermDef>(
            m.registries.glossary_terms,
            def@,
        ) {
            Some(s) => Some(with_glossary_terms(m, s)),
            None => None,
        },
        OntologyEditOp::UpdateGlossaryTerm { id, def } => match keyed_replace::<GlossaryTermDef>(
            m.registries.glossary_terms,
            id@,
            def@,
        ) {
            Some(s) => Some(with_glossary_terms(m, s)),
            None => None,
        },
        OntologyEditOp::DeleteGlossaryTerm { id } => match keyed_remove::<GlossaryTermDef>(
            m.registries.glossary_terms,
            id@,
        ) {
            Some(s) => Some(with_glossary_terms(m, s)),
            None => None,
        },
        OntologyEditOp::CreateCodedValue { code_system_id, value } => edit_codes(
            m,
            code_system_id@,
            |codes: Seq<CodedValueModel>| keyed_push::<CodedValue>(codes, value@),
        ),
        OntologyEditOp::UpdateCodedValue { code_system_id, id, value } => if value@.id != id@ {
            None
        } else {
            edit_codes(
                m,
                code_system_id@,
                |codes: Seq<CodedValueModel>| keyed_replace::<CodedValue>(codes, id@, value@),
            )
        },
        OntologyEditOp::DeleteCodedValue { code_system_id, id } => edit_codes(
            m,
            code_system_id@,
            |codes: Seq<CodedValueModel>| remove_codes(codes, id@),
        ),
        OntologyEditOp::CreateConceptMap { def } => match keyed_push::<ConceptMapDef>(
            m.registries.concept_maps,
            def@,
        ) {
            Some(s) => Some(with_concept_maps(m, s)),
            None => None,
        },
        OntologyEditOp::UpdateConceptMap { id, def } => match keyed_replace::<ConceptMapDef>(
            m.registries.concept_maps,
            id@,
            def@,
        ) {
            Some(s) => Some(with_concept_maps(m, s)),
            None => None,
        },
        OntologyEditOp::DeleteConceptMap { id } => match keyed_remove::<ConceptMapDef>(
            m.registries.concept_maps,
            id@,
        ) {
            Some(s) => Some(with_concept_maps(m, s)),
            None => None,
        },
        OntologyEditOp::CreateValueSet { def } => match keyed_push::<ValueSetDef>(
            m.registries.value_sets,
            def@,
        ) {
            Some(s) => Some(with_value_sets(m, s)),
            None => None,
        },
        OntologyEditOp::UpdateValueSet { id, def } => match keyed_replace::<ValueSetDef>(
            m.registries.value_sets,
            id@,
            def@,
        ) {
            Some(s) => Some(with_value_sets(m, s)),
            None => None,
        },
        OntologyEditOp::DeleteValueSet { id } => match keyed_remove::<ValueSetDef>(
            m.registries.value_sets,
            id@,
        ) {
            Some(s) => Some(with_value_sets(m, s)),
            None => None,
        },
        OntologyEditOp::CreateObjectMapping { mapping } => match keyed_push::<ObjectMappingDef>(
            m.object_mappings,
            mapping@,
        ) {
            Some(s) => Some(OntologyModel { object_mappings: s, ..m }),
            None => None,
        },
        OntologyEditOp::UpdateObjectMapping { id, mapping } => match keyed_replace::<
            ObjectMappingDef,
        >(m.object_mappings, id@, mapping@) {
            Some(s) => Some(OntologyModel { object_mappings: s, ..m }),
            None => None,
        },
        OntologyEditOp::DeleteObjectMapping { id } => match keyed_remove::<ObjectMappingDef>(
            m.object_mappings,
            id@,
        ) {
            Some(s) => Some(OntologyModel { object_mappings: s, ..m }),
            None => None,
        },
        OntologyEditOp::CreateLinkMapping { mapping } => match keyed_push::<LinkMappingDef>(
            m.link_mappings,
            mapping@,
        ) {
            Some(s) => Some(OntologyModel { link_mappings: s, ..m }),
            None => None,
        },
        OntologyEditOp::UpdateLinkMapping { id, mapping } => match keyed_replace::<LinkMappingDef>(
            m.link_mappings,
            id@,
            mapping@,
        ) {
            Some(s) => Some(OntologyModel { link_mappings: s, ..m }),
            None => None,
        },
        OntologyEditOp::DeleteLinkMapping { id } => match keyed_remove::<LinkMappingDef>(
            m.link_mappings,
            id@,
        ) {
            Some(s) => Some(OntologyModel { link_mappings: s, ..m }),
            None => None,
        },
        OntologyEditOp::CreateRule { def } => match keyed_push::<RuleDef>(m.rules, def@) {
            Some(s) => Some(OntologyModel { rules: s, ..m }),
            None => None,
        },
        OntologyEditOp::UpdateRule { id, def } => match keyed_replace::<RuleDef>(m.rules, id@, def@) {
            Some(s) => Some(OntologyModel { rules: s, ..m }),
            None => None,
        },
        OntologyEditOp::DeleteRule { id } => match keyed_remove::<RuleDef>(m.rules, id@) {
            Some(s) => Some(OntologyModel { rules: s, ..m }),
            None => None,
        },
        OntologyEditOp::DeprecateNodeType { id, replaced_by_id } => edit_node(
            m,
            id@,
            deprecate_node_fn(now, crate::model::opt_text(replaced_by_id)),
        ),
        OntologyEditOp::DeprecateEdgeType { id, replaced_by_id } => edit_edge(
            m,
            id@,
            deprecate_edge_fn(now, crate::model::opt_text(replaced_by_id)),
        ),
        OntologyEditOp::BindProperty { owner, property_id, binding } => edit_property(
            m,
            owner_of(owner),
            property_id@,
            bind_fn(binding@),
        ),
        OntologyEditOp::UnbindProperty { owner, property_id, target } => edit_property(
            m,
            owner_of(owner),
            property_id@,
            unbind_fn(target@),
        ),
    }
}

/// Scope metrics of an edit.
pub open spec fn scopes_of(op: OntologyEditOp) -> Seq<ScopeValue> {
    match op {
        OntologyEditOp::CreateCodedValue { .. }
        | OntologyEditOp::UpdateCodedValue { .. }
        | OntologyEditOp::DeleteCodedValue { .. } => seq![ScopeValue { kind: ScopeKind::CodeCount, value: 1 }],
        OntologyEditOp::CreateCodeSystem { def } | OntologyEditOp::UpdateCodeSystem { def, .. } => seq![
            ScopeValue { kind: ScopeKind::CodeCount, value: def.codes@.len() as u32 },
        ],
        OntologyEditOp::DeleteCodeSystem { .. } => seq![ScopeValue { kind: ScopeKind::CodeCount, value: u32::MAX }],
        _ => Seq::empty(),
    }
}


impl OntologyEditOp {
    /// The change type the approval workflow routes this edit as.
    pub fn classify_change_type(&self) -> (r: ChangeType)
        ensures
            r == change_type_of(*self),
    {
        match self {
            OntologyEditOp::CreateCodeSystem { .. }
            | OntologyEditOp::UpdateCodeSystem { .. }
            | OntologyEditOp::CreateCodedValue { .. }
            | OntologyEditOp::UpdateCodedValue { .. } => ChangeType::CodedValueCreate,
            OntologyEditOp::DeleteCodeSystem { .. } | OntologyEditOp::DeleteCodedValue { .. } =>
                ChangeType::CodedValueDeprecate,
            OntologyEditOp::CreateConcept { .. }
            | OntologyEditOp::UpdateConcept { .. }
            | OntologyEditOp::DeleteConcept { .. }
            | OntologyEditOp::CreateGlossaryTerm { .. }
            | OntologyEditOp::UpdateGlossaryTerm { .. }
            | OntologyEditOp::DeleteGlossaryTerm { .. }
            | OntologyEditOp::CreateConceptMap { .. }
            | OntologyEditOp::UpdateConceptMap { .. }
            | OntologyEditOp::DeleteConceptMap { .. }
            | OntologyEditOp::CreateValueSet { .. }
            | OntologyEditOp::UpdateValueSet { .. }
            | OntologyEditOp::DeleteValueSet { .. } => ChangeType::TerminologyRegistryUpdate,
            OntologyEditOp::CreateObjectMapping { .. }
            | OntologyEditOp::UpdateObjectMapping { .. }
            | OntologyEditOp::DeleteObjectMapping { .. }
            | OntologyEditOp::CreateLinkMapping { .. }
            | OntologyEditOp::UpdateLinkMapping { .. }
            | OntologyEditOp::DeleteLinkMapping { .. } => ChangeType::TableMerge,
            OntologyEditOp::BindProperty { .. } | OntologyEditOp::UnbindProperty { .. } =>
                ChangeType::SemanticBindingUpdate,
            OntologyEditOp::DeprecateNodeType { .. } | OntologyEditOp::DeprecateEdgeType { .. } =>
                ChangeType::StaleConceptDeprecate,
            OntologyEditOp::CreateRule { .. } => ChangeType::RuleCreate,
            OntologyEditOp::UpdateRule { .. } => ChangeType::RuleModify,
            OntologyEditOp::DeleteRule { .. } => ChangeType::RuleDelete,
        }
    }

    /// Scope metrics the edit declares for scope-based approval skips:
    /// a code count of one for a code edit, of the system's codes (as a
    /// `u32`) for a code system created or replaced, of `u32::MAX` for a
    /// code system deleted; none for other edits.
    pub fn scopes(&self) -> (r: Vec<ScopeValue>)
        ensures
            r@ == scopes_of(*self),
    {
        match self {
            OntologyEditOp::CreateCodedValue { .. }
            | OntologyEditOp::UpdateCodedValue { .. }
            | OntologyEditOp::DeleteCodedValue { .. } => {
                let r = vec![ScopeValue { kind: ScopeKind::CodeCount, value: 1 }];
                assert(r@ =~= scopes_of(*self));
                r
            },
            OntologyEditOp::CreateCodeSystem { def } | OntologyEditOp::UpdateCodeSystem { def, .. } => {
                let r = vec![ScopeValue { kind: ScopeKind::CodeCount, value: def.codes.len() as u32 }];
                assert(r@ =~= scopes_of(*self));
                r
            },
            OntologyEditOp::DeleteCodeSystem { .. } => {
                let r = vec![ScopeValue { kind: ScopeKind::CodeCount, value: u32::MAX }];
                assert(r@ =~= scopes_of(*self));
                r
            },
            _ => {
                let r: Vec<ScopeValue> = Vec::new();
                assert(r@ =~= scopes_of(*self));
                r
            },
        }
    }

    /// Apply the edit in place at time `now`. On error the ontology is
    /// unchanged.
    #[verifier::rlimit(40)]
    pub fn apply_to_at(&self, ir: &mut OntologyIR, now: i64) -> (r: Result<(), String>)
        ensures
            match r {
                Ok(()) => edit_step(*self, old(ir)@, now) == Some(final(ir)@),
                Err(_) => edit_step(*self, old(ir)@, now) is None && final(ir)@ == old(ir)@,
            },
            id_mismatch(*self) matches Some(t) ==> r matches Err(e) && e@ == t,
            keyed_edit_error(*self) matches Some(t) ==> (r matches Err(e) ==> e@ == t),
            model_edit_error(*self, old(ir)@) matches Some(t) ==> (r matches Err(e) ==> e@ == t),
    {
        match self {
            OntologyEditOp::CreateCodedValue { .. }
            | OntologyEditOp::UpdateCodedValue { .. }
            | OntologyEditOp::DeleteCodedValue { .. } => apply_code_edit(self, ir, now),
            OntologyEditOp::CreateCodeSystem { .. }
            | OntologyEditOp::UpdateCodeSystem { .. }
            | OntologyEditOp::DeleteCodeSystem { .. }
            | OntologyEditOp::CreateConceptMap { .. }
            | OntologyEditOp::UpdateConceptMap { .. }
            | OntologyEditOp::DeleteConceptMap { .. }
            | OntologyEditOp::CreateValueSet { .. }
            | OntologyEditOp::UpdateValueSet { .. }
            | OntologyEditOp::DeleteValueSet { .. } => apply_registry_edit(self, ir, now),
            OntologyEditOp::CreateConcept { .. }
            | OntologyEditOp::UpdateConcept { .. }
            | OntologyEditOp::DeleteConcept { .. }
            | OntologyEditOp::CreateGlossaryTerm { .. }
            | OntologyEditOp::UpdateGlossaryTerm { .. }
            | OntologyEditOp::DeleteGlossaryTerm { .. } => apply_vocabulary_edit(self, ir, now),
            OntologyEditOp::CreateObjectMapping { mapping } => {
                if push_keyed(&mut ir.object_mappings, mapping.deep_copy()) {
                    Ok(())
                } else {
                    Err(message("object mapping `", mapping.id.as_str(), "` already exists"))
                }
            },
            OntologyEditOp::UpdateObjectMapping { id, mapping } => {
                if !str_equal(mapping.id.as_str(), id.as_str()) {
                    return Err(mismatch("update_object_mapping: mapping.id", mapping.id.as_str(), id.as_str()));
                }
                match replace_keyed(&mut ir.object_mappings, id.as_str(), mapping.deep_copy()) {
                    Some(_) => Ok(()),
                    None => Err(message("object mapping `", id.as_str(), "` not found")),
                }
            },
            OntologyEditOp::DeleteObjectMapping { id } => {
                match remove_keyed(&mut ir.object_mappings, id.as_str()) {
                    Some(_) => Ok(()),
                    None => Err(message("object mapping `", id.as_str(), "` not found")),
                }
            },
            OntologyEditOp::CreateLinkMapping { mapping } => {
                if push_keyed(&mut ir.link_mappings, mapping.deep_copy()) {
                    Ok(())
                } else {
                    Err(message("link mapping `", mapping.id.as_str(), "` already exists"))
                }
            },
            OntologyEditOp::UpdateLinkMapping { id, mapping } => {
                if !str_equal(mapping.id.as_str(), id.as_str()) {
                    return Err(mismatch("update_link_mapping: mapping.id", mapping.id.as_str(), id.as_str()));
                }
                match replace_keyed(&mut ir.link_mappings, id.as_str(), mapping.deep_copy()) {
                    Some(_) => Ok(()),
                    None => Err(message("link mapping `", id.as_str(), "` not found")),
                }
            },
            OntologyEditOp::DeleteLinkMapping { id } => {
                match remove_keyed(&mut ir.link_mappings, id.as_str()) {
                    Some(_) => Ok(()),
                    None => Err(message("link mapping `", id.as_str(), "` not found")),
                }
            },
            OntologyEditOp::CreateRule { def } => {
                if push_keyed(&mut ir.rules, def.deep_copy()) {
                    Ok(())
                } else {
                    Err(message("rule `", def.id.as_str(), "` already exists"))
                }
            },
            OntologyEditOp::UpdateRule { id, def } => {
                if !str_equal(def.id.as_str(), id.as_str()) {
                    return Err(mismatch("update_rule: def.id", def.id.as_str(), id.as_str()));
                }
                match replace_keyed(&mut ir.rules, id.as_str(), def.deep_copy()) {
                    Some(_) => Ok(()),
                    None => Err(message("rule `", id.as_str(), "` not found")),
                }
            },
            OntologyEditOp::DeleteRule { id } => {
                match remove_keyed(&mut ir.rules, id.as_str()) {
                    Some(_) => Ok(()),
                    None => Err(message("rule `", id.as_str(), "` not found")),
                }
            },
            OntologyEditOp::DeprecateNodeType { id, replaced_by_id } => {
                let idx = match position_of(&ir.node_types, id.as_str()) {
                    Some(i) => i,
                    None => {
                        return Err(message("node_type `", id.as_str(), "` not found"));
                    },
                };
                let ghost s = ir.node_types@;
                let mut node = ir.node_types.remove(idx);
                node.deprecated_at = Some(now);
                node.replaced_by_id = crate::model::copy_opt_text(replaced_by_id);
                ir.node_types.insert(idx, node);
                proof {
                    assert(ir.node_types@ =~= s.update(idx as int, node));
                    crate::model::lemma_models_update(s, idx as int, node);
                    assert(node@ == deprecate_node_fn(now, crate::model::opt_text(*replaced_by_id))(models(s)[idx as int]));
                }
                Ok(())
            },
            OntologyEditOp::DeprecateEdgeType { id, replaced_by_id } => {
                let idx = match position_of(&ir.edge_types, id.as_str()) {
                    Some(i) => i,
                    None => {
                        return Err(message("edge_type `", id.as_str(), "` not found"));
                    },
                };
                let ghost s = ir.edge_types@;
                let mut edge = ir.edge_types.remove(idx);
                edge.deprecated_at = Some(now);
                edge.replaced_by_id = crate::model::copy_opt_text(replaced_by_id);
                ir.edge_types.insert(idx, edge);
                proof {
                    assert(ir.edge_types@ =~= s.update(idx as int, edge));
                    crate::model::lemma_models_update(s, idx as int, edge);
                    assert(edge@ == deprecate_edge_fn(now, crate::model::opt_text(*replaced_by_id))(models(s)[idx as int]));
                }
                Ok(())
            },
            OntologyEditOp::BindProperty { owner, property_id, binding } => {
                let o = owner.owner();
                let ghost m = ir@;
                let (idx, mut props, k) = match locate_property(ir, &o, property_id) {
                    Ok(found) => found,
                    Err(e) => {
                        return Err(e);
                    },
                };
                let ghost ps = props@;
                let mut prop = props.remove(k);
                let ghost p0 = prop@;
                let h = binding.handle();
                let ghost bs = p0.bindings;
                let mut j: usize = 0;
                while j < prop.bindings.len() && !prop.bindings[j].handle().same_as(&h)
                    invariant
                        j <= prop.bindings.len(),
                        bs == models(prop.bindings@),
                        h@ == handle_of(binding@),
                        forall|a: int| 0 <= a < j ==> !same_target(h@)(#[trigger] bs[a]),
                    decreases prop.bindings.len() - j,
                {
                    assert(bs[j as int] == prop.bindings@[j as int]@);
                    j = j + 1;
                }
                proof {
                    if j < prop.bindings.len() {
                        assert(bs[j as int] == prop.bindings@[j as int]@);
                    }
                    lemma_first_match_scan(bs, same_target(h@), j as int);
                }
                let fresh = binding.deep_copy();
                if j < prop.bindings.len() {
                    let ghost v = prop.bindings@;
                    crate::model::replace_at(&mut prop.bindings, j, fresh);
                    proof {
                        crate::model::lemma_models_update(v, j as int, fresh);
                    }
                } else {
                    let ghost v = prop.bindings@;
                    prop.bindings.push(fresh);
                    proof {
                        crate::model::lemma_models_push(v, fresh);
                    }
                }
                proof {
                    assert(prop@ == bind_fn(binding@)(p0));
                }
                props.insert(k, prop);
                proof {
                    assert(props@ =~= ps.update(k as int, prop));
                    crate::model::lemma_models_update(ps, k as int, prop);
                }
                put_owner_props(ir, &o, idx, props);
                proof {
                    assert(models(ps)[k as int] == p0);
                    assert(models(props@) == models(ps).update(k as int, bind_fn(binding@)(models(ps)[k as int])));
                    assert(edit_step(*self, m, now) == Some(ir@));
                }
                Ok(())
            },
            OntologyEditOp::UnbindProperty { owner, property_id, target } => {
                let o = owner.owner();
                let ghost m = ir@;
                let (idx, mut props, k) = match locate_property(ir, &o, property_id) {
                    Ok(found) => found,
                    Err(e) => {
                        return Err(e);
                    },
                };
                let ghost ps = props@;
                let mut prop = props.remove(k);
                let ghost p0 = prop@;
                let ghost tm = target@;
                let (kept, _removed) = crate::model::split_matching(
                    &prop.bindings,
                    (|b: &PropertyBinding| -> (r: bool)
                        ensures
                            r == (handle_of(b@) == tm),
                        { b.handle().same_as(target) }),
                    Ghost(|x: BindingModel| handle_of(x) == tm),
                );
                proof {
                    let pp = |x: BindingModel| handle_of(x) == tm;
                    assert((|x: BindingModel| !pp(x)) =~= (|x: BindingModel| handle_of(x) != tm));
                }
                prop.bindings = kept;
                proof {
                    assert(prop@ == unbind_fn(target@)(p0));
                }
                props.insert(k, prop);
                proof {
                    assert(props@ =~= ps.update(k as int, prop));
                    crate::model::lemma_models_update(ps, k as int, prop);
                }
                put_owner_props(ir, &o, idx, props);
                proof {
                    assert(models(ps)[k as int] == p0);
                    assert(models(props@) == models(ps).update(k as int, unbind_fn(target@)(models(ps)[k as int])));
                    assert(edit_step(*self, m, now) == Some(ir@));
                }
                Ok(())
            },
        }
    }

    /// Apply the edit in place, stamping deprecations with the current
    /// time. On error the ontology is unchanged.
    pub fn apply_to(&self, ir: &mut OntologyIR) -> (r: Result<(), String>)
        ensures
            exists|now: i64|
                -crate::clock::CLOCK_LIMIT <= now <= crate::clock::CLOCK_LIMIT && match r {
                    Ok(()) => edit_step(*self, old(ir)@, now) == Some(final(ir)@),
                    Err(_) => edit_step(*self, old(ir)@, now) is None && final(ir)@ == old(ir)@,
                },
            id_mismatch(*self) matches Some(t) ==> r matches Err(e) && e@ == t,
            keyed_edit_error(*self) matches Some(t) ==> (r matches Err(e) ==> e@ == t),
            model_edit_error(*self, old(ir)@) matches Some(t) ==> (r matches Err(e) ==> e@ == t),
    {
        let now = now_epoch_seconds();
        self.apply_to_at(ir, now)
    }
}

/// The message of an update whose payload id differs from its path id.
pub open spec fn mismatch_text(what: Seq<char>, payload: Seq<char>, path: Seq<char>) -> Seq<char> {
    what + " ("@ + payload + ") does not match path id ("@ + path + ")"@
}

/// The message of a creation whose id is taken.
pub open spec fn taken_text(kind: Seq<char>, id: Seq<char>) -> Seq<char> {
    kind + id + "` already exists"@
}

/// The message of an edit whose id is not found.
pub open spec fn absent_text(kind: Seq<char>, id: Seq<char>) -> Seq<char> {
    kind + id + "` not found"@
}

/// The message a refused edit of a keyed collection (object and link
/// mappings, rules, code systems, concept maps, value sets) gives: the
/// taken id for a creation; the id mismatch, else the id not found, for
/// an update; the id not found for a deletion.
pub open spec fn keyed_edit_error(op: OntologyEditOp) -> Option<Seq<char>> {
    let update = |kind: Seq<char>, id: Seq<char>|
        match id_mismatch(op) {
            Some(t) => t,
            None => absent_text(kind, id),
        };
    match op {
        OntologyEditOp::CreateObjectMapping { mapping } => Some(taken_text("object mapping `"@, mapping.id@)),
        OntologyEditOp::UpdateObjectMapping { id, .. } => Some(update("object mapping `"@, id@)),
        OntologyEditOp::DeleteObjectMapping { id } => Some(absent_text("object mapping `"@, id@)),
        OntologyEditOp::CreateLinkMapping { mapping } => Some(taken_text("link mapping `"@, mapping.id@)),
        OntologyEditOp::UpdateLinkMapping { id, .. } => Some(update("link mapping `"@, id@)),
        OntologyEditOp::DeleteLinkMapping { id } => Some(absent_text("link mapping `"@, id@)),
        OntologyEditOp::CreateRule { def } => Some(taken_text("rule `"@, def.id@)),
        OntologyEditOp::UpdateRule { id, .. } => Some(update("rule `"@, id@)),
        OntologyEditOp::DeleteRule { id } => Some(absent_text("rule `"@, id@)),
        OntologyEditOp::CreateCodeSystem { def } => Some(taken_text("code_system `"@, def.id@)),
        OntologyEditOp::UpdateCodeSystem { id, .. } => Some(update("code_system `"@, id@)),
        OntologyEditOp::DeleteCodeSystem { id } => Some(absent_text("code_system `"@, id@)),
        OntologyEditOp::CreateConceptMap { def } => Some(taken_text("concept_map `"@, def.id@)),
        OntologyEditOp::UpdateConceptMap { id, .. } => Some(update("concept_map `"@, id@)),
        OntologyEditOp::DeleteConceptMap { id } => Some(absent_text("concept_map `"@, id@)),
        OntologyEditOp::CreateValueSet { def } => Some(taken_text("value_set `"@, def.id@)),
        OntologyEditOp::UpdateValueSet { id, .. } => Some(update("value_set `"@, id@)),
        OntologyEditOp::DeleteValueSet { id } => Some(absent_text("value_set `"@, id@)),
        OntologyEditOp::CreateGlossaryTerm { def } => Some(taken_text("glossary_term `"@, def.id@)),
        OntologyEditOp::UpdateGlossaryTerm { id, .. } => Some(update("glossary_term `"@, id@)),
        OntologyEditOp::DeleteGlossaryTerm { id } => Some(absent_text("glossary_term `"@, id@)),
        OntologyEditOp::DeprecateNodeType { id, .. } => Some(absent_text("node_type `"@, id@)),
        OntologyEditOp::DeprecateEdgeType { id, .. } => Some(absent_text("edge_type `"@, id@)),
        _ => None,
    }
}

/// The message of a property edit whose property is missing: the owner
/// not found, else the property not found on it.
pub open spec fn property_missing_text(m: OntologyModel, owner: PropertyOwner, pid: Seq<char>) -> Seq<char> {
    match owner_props(m, owner) {
        None => match owner {
            PropertyOwner::Node { type_id } => absent_text("node_type `"@, type_id@),
            PropertyOwner::Edge { type_id } => absent_text("edge_type `"@, type_id@),
        },
        Some(_) => "property `"@ + pid + "` not found on its owner"@,
    }
}

/// The message a refused binding or concept edit gives on `m`.
pub open spec fn model_edit_error(op: OntologyEditOp, m: OntologyModel) -> Option<Seq<char>> {
    let cs = m.registries.concepts;
    match op {
        OntologyEditOp::CreateConcept { def } => Some(
            if has_key::<ConceptDef>(cs, def.id@) {
                taken_text("concept `"@, def.id@)
            } else {
                cycle_text(def.id@)
            },
        ),
        OntologyEditOp::UpdateConcept { id, .. } => Some(
            match id_mismatch(op) {
                Some(t) => t,
                None => if first_match(cs, key_is::<ConceptDef>(id@)) is None {
                    absent_text("concept `"@, id@)
                } else {
                    cycle_text(id@)
                },
            },
        ),
        OntologyEditOp::DeleteConcept { id } => Some(
            if first_match(cs, key_is::<ConceptDef>(id@)) is None {
                absent_text("concept `"@, id@)
            } else {
                in_use_text(id@)
            },
        ),
        OntologyEditOp::BindProperty { owner, property_id, .. }
        | OntologyEditOp::UnbindProperty { owner, property_id, .. } => Some(
            property_missing_text(m, owner_of(owner), property_id@),
        ),
        _ => None,
    }
}

/// The error an update edit fails with before anything else is checked:
/// its payload id differs from its path id.
pub open spec fn id_mismatch(op: OntologyEditOp) -> Option<Seq<char>> {
    match op {
        OntologyEditOp::UpdateCodeSystem { id, def } => if def.id@ != id@ {
            Some(mismatch_text("update_code_system: def.id"@, def.id@, id@))
        } else {
            None
        },
        OntologyEditOp::UpdateCodedValue { id, value, .. } => if value.id@ != id@ {
            Some(mismatch_text("update_coded_value: value.id"@, value.id@, id@))
        } else {
            None
        },
        OntologyEditOp::UpdateObjectMapping { id, mapping } => if mapping.id@ != id@ {
            Some(mismatch_text("update_object_mapping: mapping.id"@, mapping.id@, id@))
        } else {
            None
        },
        OntologyEditOp::UpdateLinkMapping { id, mapping } => if mapping.id@ != id@ {
            Some(mismatch_text("update_link_mapping: mapping.id"@, mapping.id@, id@))
        } else {
            None
        },
        OntologyEditOp::UpdateConceptMap { id, def } => if def.id@ != id@ {
            Some(mismatch_text("update_concept_map: def.id"@, def.id@, id@))
        } else {
            None
        },
        OntologyEditOp::UpdateValueSet { id, def } => if def.id@ != id@ {
            Some(mismatch_text("update_value_set: def.id"@, def.id@, id@))
        } else {
            None
        },
        OntologyEditOp::UpdateRule { id, def } => if def.id@ != id@ {
            Some(mismatch_text("update_rule: def.id"@, def.id@, id@))
        } else {
            None
        },
        OntologyEditOp::UpdateConcept { id, def } => if def.id@ != id@ {
            Some(mismatch_text("update_concept: def.id"@, def.id@, id@))
        } else {
            None
        },
        OntologyEditOp::UpdateGlossaryTerm { id, def } => if def.id@ != id@ {
            Some(mismatch_text("update_glossary_term: def.id"@, def.id@, id@))
        } else {
            None
        },
        _ => None,
    }
}

fn mismatch(what: &str, payload: &str, path: &str) -> (r: String)
    ensures
        r@ == mismatch_text(what@, payload@, path@),
{
    let mut s = String::from_str(what);
    s.append(" (");
    s.append(payload);
    s.append(") does not match path id (");
    s.append(path);
    s.append(")");
    proof {
        reveal_strlit(" (");
        reveal_strlit(") does not match path id (");
        reveal_strlit(")");
    }
    assert(s@ =~= mismatch_text(what@, payload@, path@));
    s
}

/// Whether concept `id` is its own broader ancestor among `cs`.
fn has_broader_cycle(cs: &Vec<ConceptDef>, id: &str) -> (r: bool)
    ensures
        r == broader_cycle(models(cs@), id@),
{
    let ghost s = models(cs@);
    let n = cs.len();
    let mut cur = String::from_str(id);
    let mut k: usize = 0;
    while k < n
        invariant
            k <= n,
            n == cs.len(),
            s == models(cs@),
            s.len() == n,
            broader_cycle(s, id@) == climbs_to(s, cur@, id@, (n - k) as nat),
        decreases n - k,
    {
        match position_of(cs, cur.as_str()) {
            None => {
                return false;
            },
            Some(i) => {
                proof {
                    assert(s[i as int] == cs@[i as int]@);
                }
                match &cs[i].broader {
                    None => {
                        return false;
                    },
                    Some(p) => {
                        if str_equal(p.as_str(), id) {
                            return true;
                        }
                        cur = p.clone();
                    },
                }
            },
        }
        k = k + 1;
    }
    false
}

/// Whether some glossary term of `ts` names concept `id`.
fn concept_named_by_term(ts: &Vec<GlossaryTermDef>, id: &str) -> (r: bool)
    ensures
        r == concept_in_use(models(ts@), id@),
{
    let ghost s = models(ts@);
    let mut i: usize = 0;
    while i < ts.len()
        invariant
            i <= ts.len(),
            s == models(ts@),
            forall|j: int| 0 <= j < i ==> (#[trigger] s[j]).concept_id != Some(id@),
        decreases ts.len() - i,
    {
        proof {
            assert(s[i as int] == ts@[i as int]@);
        }
        match &ts[i].concept_id {
            Some(c) => {
                if str_equal(c.as_str(), id) {
                    assert(s[i as int].concept_id == Some(id@));
                    return true;
                }
            },
            None => {},
        }
        i = i + 1;
    }
    false
}

/// Apply a concept or glossary-term edit.
#[verifier::rlimit(40)]
fn apply_vocabulary_edit(op: &OntologyEditOp, ir: &mut OntologyIR, now: i64) -> (r: Result<(), String>)
    requires
        op is CreateConcept || op is UpdateConcept || op is DeleteConcept || op is CreateGlossaryTerm
            || op is UpdateGlossaryTerm || op is DeleteGlossaryTerm,
    ensures
        match r {
            Ok(()) => edit_step(*op, old(ir)@, now) == Some(final(ir)@),
            Err(_) => edit_step(*op, old(ir)@, now) is None && final(ir)@ == old(ir)@,
        },
        id_mismatch(*op) matches Some(t) ==> r matches Err(e) && e@ == t,
        keyed_edit_error(*op) matches Some(t) ==> (r matches Err(e) ==> e@ == t),
        model_edit_error(*op, old(ir)@) matches Some(t) ==> (r matches Err(e) ==> e@ == t),
{
    let ghost m = ir@;
    let ghost cs = m.registries.concepts;
    match op {
        OntologyEditOp::CreateConcept { def } => {
            if position_of(&ir.registries.concepts, def.id.as_str()).is_some() {
                return Err(message("concept `", def.id.as_str(), "` already exists"));
            }
            proof {
                lemma_first_match_props(cs, key_is::<ConceptDef>(def@.id));
                assert(!has_key::<ConceptDef>(cs, def@.id));
            }
            let mut trial = copy_vec(&ir.registries.concepts);
            let fresh = def.deep_copy();
            proof {
                crate::model::lemma_models_push(trial@, fresh);
            }
            trial.push(fresh);
            if has_broader_cycle(&trial, def.id.as_str()) {
                return Err(message("concept.broader.cycle: concept `", def.id.as_str(), "` would be its own broader ancestor"));
            }
            ir.registries.concepts = trial;
            Ok(())
        },
        OntologyEditOp::UpdateConcept { id, def } => {
            if !str_equal(def.id.as_str(), id.as_str()) {
                return Err(mismatch("update_concept: def.id", def.id.as_str(), id.as_str()));
            }
            let idx = match position_of(&ir.registries.concepts, id.as_str()) {
                Some(i) => i,
                None => {
                    return Err(message("concept `", id.as_str(), "` not found"));
                },
            };
            let mut trial = copy_vec(&ir.registries.concepts);
            let fresh = def.deep_copy();
            proof {
                crate::model::lemma_models_update(trial@, idx as int, fresh);
            }
            crate::model::replace_at(&mut trial, idx, fresh);
            if has_broader_cycle(&trial, id.as_str()) {
                return Err(message("concept.broader.cycle: concept `", id.as_str(), "` would be its own broader ancestor"));
            }
            ir.registries.concepts = trial;
            Ok(())
        },
        OntologyEditOp::DeleteConcept { id } => {
            if position_of(&ir.registries.concepts, id.as_str()).is_none() {
                return Err(message("concept `", id.as_str(), "` not found"));
            }
            if concept_named_by_term(&ir.registries.glossary_terms, id.as_str()) {
                return Err(message("concept.in_use_by_glossary_term: concept `", id.as_str(), "` is still named by a glossary term"));
            }
            match remove_keyed(&mut ir.registries.concepts, id.as_str()) {
                Some(_) => Ok(()),
                None => Err(message("concept `", id.as_str(), "` not found")),
            }
        },
        OntologyEditOp::CreateGlossaryTerm { def } => {
            if push_keyed(&mut ir.registries.glossary_terms, def.deep_copy()) {
                Ok(())
            } else {
                Err(message("glossary_term `", def.id.as_str(), "` already exists"))
            }
        },
        OntologyEditOp::UpdateGlossaryTerm { id, def } => {
            if !str_equal(def.id.as_str(), id.as_str()) {
                return Err(mismatch("update_glossary_term: def.id", def.id.as_str(), id.as_str()));
            }
            match replace_keyed(&mut ir.registries.glossary_terms, id.as_str(), def.deep_copy()) {
                Some(_) => Ok(()),
                None => Err(message("glossary_term `", id.as_str(), "` not found")),
            }
        },
        OntologyEditOp::DeleteGlossaryTerm { id } => {
            match remove_keyed(&mut ir.registries.glossary_terms, id.as_str()) {
                Some(_) => Ok(()),
                None => Err(message("glossary_term `", id.as_str(), "` not found")),
            }
        },
        _ => Err(String::new()),
    }
}

/// Apply a code system, concept map or value set edit.
fn apply_registry_edit(op: &OntologyEditOp, ir: &mut OntologyIR, now: i64) -> (r: Result<(), String>)
    requires
        op is CreateCodeSystem || op is UpdateCodeSystem || op is DeleteCodeSystem || op is CreateConceptMap
            || op is UpdateConceptMap || op is DeleteConceptMap || op is CreateValueSet || op is UpdateValueSet
            || op is DeleteValueSet,
    ensures
        match r {
            Ok(()) => edit_step(*op, old(ir)@, now) == Some(final(ir)@),
            Err(_) => edit_step(*op, old(ir)@, now) is None && final(ir)@ == old(ir)@,
        },
        id_mismatch(*op) matches Some(t) ==> r matches Err(e) && e@ == t,
        keyed_edit_error(*op) matches Some(t) ==> (r matches Err(e) ==> e@ == t),
{
    match op {
        OntologyEditOp::CreateCodeSystem { def } => {
            if push_keyed(&mut ir.registries.code_systems, def.deep_copy()) {
                Ok(())
            } else {
                Err(message("code_system `", def.id.as_str(), "` already exists"))
            }
        },
        OntologyEditOp::UpdateCodeSystem { id, def } => {
            if !str_equal(def.id.as_str(), id.as_str()) {
                return Err(mismatch("update_code_system: def.id", def.id.as_str(), id.as_str()));
            }
            match replace_keyed(&mut ir.registries.code_systems, id.as_str(), def.deep_copy()) {
                Some(_) => Ok(()),
                None => Err(message("code_system `", id.as_str(), "` not found")),
            }
        },
        OntologyEditOp::DeleteCodeSystem { id } => {
            match remove_keyed(&mut ir.registries.code_systems, id.as_str()) {
                Some(_) => Ok(()),
                None => Err(message("code_system `", id.as_str(), "` not found")),
            }
        },
        OntologyEditOp::CreateConceptMap { def } => {
            if push_keyed(&mut ir.registries.concept_maps, def.deep_copy()) {
                Ok(())
            } else {
                Err(message("concept_map `", def.id.as_str(), "` already exists"))
            }
        },
        OntologyEditOp::UpdateConceptMap { id, def } => {
            if !str_equal(def.id.as_str(), id.as_str()) {
                return Err(mismatch("update_concept_map: def.id", def.id.as_str(), id.as_str()));
            }
            match replace_keyed(&mut ir.registries.concept_maps, id.as_str(), def.deep_copy()) {
                Some(_) => Ok(()),
                None => Err(message("concept_map `", id.as_str(), "` not found")),
            }
        },
        OntologyEditOp::DeleteConceptMap { id } => {
            match remove_keyed(&mut ir.registries.concept_maps, id.as_str()) {
                Some(_) => Ok(()),
                None => Err(message("concept_map `", id.as_str(), "` not found")),
            }
        },
        OntologyEditOp::CreateValueSet { def } => {
            if push_keyed(&mut ir.registries.value_sets, def.deep_copy()) {
                Ok(())
            } else {
                Err(message("value_set `", def.id.as_str(), "` already exists"))
            }
        },
        OntologyEditOp::UpdateValueSet { id, def } => {
            if !str_equal(def.id.as_str(), id.as_str()) {
                return Err(mismatch("update_value_set: def.id", def.id.as_str(), id.as_str()));
            }
            match replace_keyed(&mut ir.registries.value_sets, id.as_str(), def.deep_copy()) {
                Some(_) => Ok(()),
                None => Err(message("value_set `", id.as_str(), "` not found")),
            }
        },
        OntologyEditOp::DeleteValueSet { id } => {
            match remove_keyed(&mut ir.registries.value_sets, id.as_str()) {
                Some(_) => Ok(()),
                None => Err(message("value_set `", id.as_str(), "` not found")),
            }
        },
        _ => Err(String::new()),
    }
}

/// Apply an edit of one code of a code system.
fn apply_code_edit(op: &OntologyEditOp, ir: &mut OntologyIR, now: i64) -> (r: Result<(), String>)
    requires
        op is CreateCodedValue || op is UpdateCodedValue || op is DeleteCodedValue,
    ensures
        match r {
            Ok(()) => edit_step(*op, old(ir)@, now) == Some(final(ir)@),
            Err(_) => edit_step(*op, old(ir)@, now) is None && final(ir)@ == old(ir)@,
        },
        id_mismatch(*op) matches Some(t) ==> r matches Err(e) && e@ == t,
{
    match op {
        OntologyEditOp::CreateCodedValue { code_system_id, value } => {
            let ghost m = ir@;
            let i = match position_of(&ir.registries.code_systems, code_system_id.as_str()) {
                Some(i) => i,
                None => {
                    return Err(message("code_system `", code_system_id.as_str(), "` not found"));
                },
            };
            let mut cs = ir.registries.code_systems[i].deep_copy();
            if !push_keyed(&mut cs.codes, value.deep_copy()) {
                return Err(message("coded_value `", value.id.as_str(), "` already exists"));
            }
            let ghost v = ir.registries.code_systems@;
            crate::model::replace_at(&mut ir.registries.code_systems, i, cs);
            proof {
                crate::model::lemma_models_update(v, i as int, cs);
                assert(ir@ == with_code_systems(m, models(v).update(i as int, cs@)));
            }
            Ok(())
        },
        OntologyEditOp::UpdateCodedValue { code_system_id, id, value } => {
            if !str_equal(value.id.as_str(), id.as_str()) {
                return Err(mismatch("update_coded_value: value.id", value.id.as_str(), id.as_str()));
            }
            let ghost m = ir@;
            let i = match position_of(&ir.registries.code_systems, code_system_id.as_str()) {
                Some(i) => i,
                None => {
                    return Err(message("code_system `", code_system_id.as_str(), "` not found"));
                },
            };
            let mut cs = ir.registries.code_systems[i].deep_copy();
            match replace_keyed(&mut cs.codes, id.as_str(), value.deep_copy()) {
                Some(_) => {},
                None => {
                    return Err(message("coded_value `", id.as_str(), "` not found"));
                },
            }
            let ghost v = ir.registries.code_systems@;
            crate::model::replace_at(&mut ir.registries.code_systems, i, cs);
            proof {
                crate::model::lemma_models_update(v, i as int, cs);
                assert(ir@ == with_code_systems(m, models(v).update(i as int, cs@)));
            }
            Ok(())
        },
        OntologyEditOp::DeleteCodedValue { code_system_id, id } => {
            let ghost m = ir@;
            let i = match position_of(&ir.registries.code_systems, code_system_id.as_str()) {
                Some(i) => i,
                None => {
                    return Err(message("code_system `", code_system_id.as_str(), "` not found"));
                },
            };
            if position_of(&ir.registries.code_systems[i].codes, id.as_str()).is_none() {
                proof {
                    if crate::model::has_key::<CodedValue>(m.registries.code_systems[i as int].codes, id@) {
                        lemma_first_match_props(m.registries.code_systems[i as int].codes, key_is::<CodedValue>(id@));
                    }
                }
                return Err(message("coded_value `", id.as_str(), "` not found"));
            }
            proof {
                lemma_first_match_props(m.registries.code_systems[i as int].codes, key_is::<CodedValue>(id@));
            }
            let mut cs = ir.registries.code_systems[i].deep_copy();
            let ghost tid = id@;
            let (kept, _removed) = crate::model::split_matching(
                &cs.codes,
                (|c: &CodedValue| -> (r: bool)
                    ensures
                        r == (c@.id == tid),
                    { str_equal(c.id.as_str(), id.as_str()) }),
                Ghost(|x: CodedValueModel| x.id == tid),
            );
            proof {
                let pp = |x: CodedValueModel| x.id == tid;
                assert((|x: CodedValueModel| !pp(x)) =~= (|c: CodedValueModel| c.id != tid));
            }
            cs.codes = kept;
            let ghost v = ir.registries.code_systems@;
            crate::model::replace_at(&mut ir.registries.code_systems, i, cs);
            proof {
                crate::model::lemma_models_update(v, i as int, cs);
                assert(ir@ == with_code_systems(m, models(v).update(i as int, cs@)));
            }
            Ok(())
        },
        _ => Err(String::new()),
    }
}

/// Find property `pid` of an owner: the owner's index, a copy of its
/// properties, and the property's index there.
fn locate_property(ir: &OntologyIR, owner: &PropertyOwner, pid: &String) -> (r: Result<
    (usize, Vec<PropertyDef>, usize),
    String,
>)
    ensures
        match r {
            Ok((idx, props, k)) => {
                &&& owner_props(ir@, *owner) == Some(models(props@))
                &&& first_match(models(props@), key_is::<PropertyDef>(pid@)) == Some(k as int)
                &&& k < props@.len()
                &&& (*owner is Node ==> first_match(ir@.node_types, key_is::<NodeTypeDef>(crate::command::owner_id(*owner))) == Some(idx as int) && idx < ir.node_types.len())
                &&& (*owner is Edge ==> first_match(ir@.edge_types, key_is::<EdgeTypeDef>(crate::command::owner_id(*owner))) == Some(idx as int) && idx < ir.edge_types.len())
            },
            Err(e) => e@ == property_missing_text(ir@, *owner, pid@) && match owner_props(ir@, *owner) {
                Some(props) => first_match(props, key_is::<PropertyDef>(pid@)) is None,
                None => true,
            },
        },
{
    let idx = match locate_owner(ir, owner) {
        Some(i) => i,
        None => {
            return Err(match owner {
                PropertyOwner::Node { type_id } => message("node_type `", type_id.as_str(), "` not found"),
                PropertyOwner::Edge { type_id } => message("edge_type `", type_id.as_str(), "` not found"),
            });
        },
    };
    let is_node = match owner {
        PropertyOwner::Node { .. } => true,
        PropertyOwner::Edge { .. } => false,
    };
    let props = owner_props_copy(ir, is_node, idx);
    proof {
        assert(owner_props(ir@, *owner) == Some(models(props@)));
    }
    match position_of(&props, pid.as_str()) {
        Some(k) => Ok((idx, props, k)),
        None => Err(message("property `", pid.as_str(), "` not found on its owner")),
    }
}


/// An admin edit request: the operations to apply, all or none, to the
/// ontology at `expected_version`; with `dry_run` they are only checked.
#[derive(Debug)]
pub struct EditOntologyRequest {
    pub expected_version: u32,
    pub operations: Vec<OntologyEditOp>,
    pub message: Option<String>,
    pub dry_run: bool,
}

/// What a committed edit produced. Instants are seconds since the Unix
/// epoch.
#[derive(Debug)]
pub struct OntologyEditReceipt {
    pub new_version: u32,
    pub new_version_id: uuid::Uuid,
    pub parent_version_id: Option<uuid::Uuid>,
    pub applied_operations: usize,
    pub committed_at: i64,
}

/// What a dry run found: how many operations applied, where and why the
/// first failure happened, the validation diagnostics, the change type of
/// each operation and whether the edit would commit.
#[derive(Debug, Clone, PartialEq, Eq)]
pub struct OntologyEditPreCheck {
    pub applied_operations: usize,
    pub failed_operation_index: Option<usize>,
    pub failure_message: Option<String>,
    pub validation_errors: Vec<crate::integrity::DiagnosticMessage>,
    pub classified_changes: Vec<String>,
    pub would_commit: bool,
}

/// Whether an edit writes an object mapping or a link mapping.
pub open spec fn is_mapping_edit(op: OntologyEditOp) -> bool {
    ||| op is CreateObjectMapping
    ||| op is UpdateObjectMapping
    ||| op is DeleteObjectMapping
    ||| op is CreateLinkMapping
    ||| op is UpdateLinkMapping
    ||| op is DeleteLinkMapping
}

/// Every object-mapping and link-mapping edit classifies as a table merge,
/// and so, under the default routing, it queues for approval whatever the
/// author's role (an admin's too) and whatever scopes the edit declares.
pub proof fn lemma_mapping_edits_always_queue(
    op: OntologyEditOp,
    author_role: Option<RoleRef>,
    scopes: Seq<ScopeValue>,
)
    requires
        is_mapping_edit(op),
    ensures
        change_type_of(op) == ChangeType::TableMerge,
        decision_of(default_routing_of(change_type_of(op)), author_role, scopes)
            == DecisionModel::Queue,
{
}

/// The change type of every other kind of edit: code-system and code
/// writes create coded values, their deletions deprecate them; terminology
/// registry writes (concepts, glossary terms, concept maps, value sets)
/// update the registry; binding edits update a semantic binding; type
/// deprecations deprecate a stale concept; rule writes create, modify or
/// delete a rule.
pub proof fn lemma_edit_change_types(op: OntologyEditOp)
    ensures
        (op is CreateCodeSystem || op is UpdateCodeSystem || op is CreateCodedValue
            || op is UpdateCodedValue) ==> change_type_of(op) == ChangeType::CodedValueCreate,
        (op is DeleteCodeSystem || op is DeleteCodedValue) ==> change_type_of(op)
            == ChangeType::CodedValueDeprecate,
        (op is CreateConcept || op is UpdateConcept || op is DeleteConcept
            || op is CreateGlossaryTerm || op is UpdateGlossaryTerm || op is DeleteGlossaryTerm
            || op is CreateConceptMap || op is UpdateConceptMap || op is DeleteConceptMap
            || op is CreateValueSet || op is UpdateValueSet || op is DeleteValueSet)
            ==> change_type_of(op) == ChangeType::TerminologyRegistryUpdate,
        (op is BindProperty || op is UnbindProperty) ==> change_type_of(op)
            == ChangeType::SemanticBindingUpdate,
        (op is DeprecateNodeType || op is DeprecateEdgeType) ==> change_type_of(op)
            == ChangeType::StaleConceptDeprecate,
        op is CreateRule ==> change_type_of(op) == ChangeType::RuleCreate,
        op is UpdateRule ==> change_type_of(op) == ChangeType::RuleModify,
        op is DeleteRule ==> change_type_of(op) == ChangeType::RuleDelete,
        is_mapping_edit(op) ==> change_type_of(op) == ChangeType::TableMerge,
{
}

proof fn lemma_keyed_push_prim<T: Keyed>(s: Seq<T::V>, x: T::V)
    ensures
        keyed_push::<T>(s, x) is None <==> exists|j: int| 0 <= j < s.len() && T::key_of(#[trigger] s[j]) == T::key_of(x),
        keyed_push::<T>(s, x) is Some ==> keyed_push::<T>(s, x) == Some(s.push(x)),
        keyed_push::<T>(s, x) is Some ==> keyed_remove::<T>(s.push(x), T::key_of(x)) == Some(s),
{
    if !has_key::<T>(s, T::key_of(x)) {
        lemma_first_match_push_absent::<T>(s, x);
        assert(s.push(x).remove(s.len() as int) =~= s);
    }
}

proof fn lemma_keyed_remove_prim<T: Keyed>(s: Seq<T::V>, id: Seq<char>)
    ensures
        keyed_remove::<T>(s, id) is None <==> forall|j: int| 0 <= j < s.len() ==> T::key_of(#[trigger] s[j]) != id,
        keyed_remove::<T>(s, id) matches Some(t) ==> exists|k: int|
            0 <= k < s.len() && T::key_of(#[trigger] s[k]) == id && (forall|j: int|
                0 <= j < k ==> T::key_of(#[trigger] s[j]) != id) && t == s.remove(k),
{
    lemma_first_match_props(s, key_is::<T>(id));
    match first_match(s, key_is::<T>(id)) {
        Some(k) => {
            assert(key_is::<T>(id)(s[k]));
            assert forall|j: int| 0 <= j < k implies T::key_of(#[trigger] s[j]) != id by {
                assert(!key_is::<T>(id)(s[j]));
            }
        },
        None => {
            assert forall|j: int| 0 <= j < s.len() implies T::key_of(#[trigger] s[j]) != id by {
                assert(!key_is::<T>(id)(s[j]));
            }
        },
    }
}

/// Object-mapping writes: creating fails exactly when some object mapping
/// already has the new mapping's id, and otherwise appends the mapping and
/// changes nothing else; deleting fails exactly when no object mapping has
/// the id, and otherwise removes the first one with it and changes nothing
/// else; deleting what was just created gives the ontology back.
pub proof fn lemma_object_mapping_writes(m: OntologyModel, mapping: ObjectMappingDef, id: String, now: i64)
    ensures
        edit_step(OntologyEditOp::CreateObjectMapping { mapping }, m, now) is None <==> exists|j: int|
            0 <= j < m.object_mappings.len() && (#[trigger] m.object_mappings[j]).id == mapping@.id,
        edit_step(OntologyEditOp::CreateObjectMapping { mapping }, m, now) is Some ==> edit_step(
            (OntologyEditOp::CreateObjectMapping { mapping }),
            m,
            now,
        ) == Some(OntologyModel { object_mappings: m.object_mappings.push(mapping@), ..m }),
        edit_step(OntologyEditOp::DeleteObjectMapping { id }, m, now) is None <==> forall|j: int|
            0 <= j < m.object_mappings.len() ==> (#[trigger] m.object_mappings[j]).id != id@,
        edit_step(OntologyEditOp::DeleteObjectMapping { id }, m, now) matches Some(m2) ==> exists|k: int|
            0 <= k < m.object_mappings.len() && (#[trigger] m.object_mappings[k]).id == id@ && (forall|j: int|
                0 <= j < k ==> (#[trigger] m.object_mappings[j]).id != id@) && m2 == (OntologyModel {
                object_mappings: m.object_mappings.remove(k),
                ..m
            }),
        edit_step(OntologyEditOp::CreateObjectMapping { mapping }, m, now) matches Some(m2) ==> edit_step(
            (OntologyEditOp::DeleteObjectMapping { id: mapping.id }),
            m2,
            now,
        ) == Some(m),
{
    lemma_keyed_push_prim::<ObjectMappingDef>(m.object_mappings, mapping@);
    lemma_keyed_remove_prim::<ObjectMappingDef>(m.object_mappings, id@);
    if edit_step(OntologyEditOp::CreateObjectMapping { mapping }, m, now) is Some {
        let m2 = (OntologyModel { object_mappings: m.object_mappings.push(mapping@), ..m });
        assert(OntologyModel { object_mappings: m.object_mappings, ..m2 } == m);
    }
}

/// Link-mapping writes: creating fails exactly when some link mapping
/// already has the new mapping's id, and otherwise appends it and changes
/// nothing else; deleting fails exactly when no link mapping has the id,
/// and otherwise removes the first one with it and changes nothing else;
/// deleting what was just created gives the ontology back.
pub proof fn lemma_link_mapping_writes(m: OntologyModel, mapping: LinkMappingDef, id: String, now: i64)
    ensures
        edit_step(OntologyEditOp::CreateLinkMapping { mapping }, m, now) is None <==> exists|j: int|
            0 <= j < m.link_mappings.len() && (#[trigger] m.link_mappings[j]).id == mapping@.id,
        edit_step(OntologyEditOp::CreateLinkMapping { mapping }, m, now) is Some ==> edit_step(
            (OntologyEditOp::CreateLinkMapping { mapping }),
            m,
            now,
        ) == Some(OntologyModel { link_mappings: m.link_mappings.push(mapping@), ..m }),
        edit_step(OntologyEditOp::DeleteLinkMapping { id }, m, now) is None <==> forall|j: int|
            0 <= j < m.link_mappings.len() ==> (#[trigger] m.link_mappings[j]).id != id@,
        edit_step(OntologyEditOp::DeleteLinkMapping { id }, m, now) matches Some(m2) ==> exists|k: int|
            0 <= k < m.link_mappings.len() && (#[trigger] m.link_mappings[k]).id == id@ && (forall|j: int|
                0 <= j < k ==> (#[trigger] m.link_mappings[j]).id != id@) && m2 == (OntologyModel {
                link_mappings: m.link_mappings.remove(k),
                ..m
            }),
        edit_step(OntologyEditOp::CreateLinkMapping { mapping }, m, now) matches Some(m2) ==> edit_step(
            (OntologyEditOp::DeleteLinkMapping { id: mapping.id }),
            m2,
            now,
        ) == Some(m),
{
    lemma_keyed_push_prim::<LinkMappingDef>(m.link_mappings, mapping@);
    lemma_keyed_remove_prim::<LinkMappingDef>(m.link_mappings, id@);
    if edit_step(OntologyEditOp::CreateLinkMapping { mapping }, m, now) is Some {
        let m2 = (OntologyModel { link_mappings: m.link_mappings.push(mapping@), ..m });
        assert(OntologyModel { link_mappings: m.link_mappings, ..m2 } == m);
    }
}

/// Rule writes: creating fails exactly when some rule already has the new
/// rule's id, and otherwise appends it and changes nothing else; deleting
/// fails exactly when no rule has the id, and otherwise removes the first
/// one with it and changes nothing else; deleting what was just created
/// gives the ontology back.
pub proof fn lemma_rule_writes(m: OntologyModel, def: RuleDef, id: String, now: i64)
    ensures
        edit_step(OntologyEditOp::CreateRule { def }, m, now) is None <==> exists|j: int|
            0 <= j < m.rules.len() && (#[trigger] m.rules[j]).id == def@.id,
        edit_step(OntologyEditOp::CreateRule { def }, m, now) is Some ==> edit_step(
            (OntologyEditOp::CreateRule { def }),
            m,
            now,
        ) == Some(OntologyModel { rules: m.rules.push(def@), ..m }),
        edit_step(OntologyEditOp::DeleteRule { id }, m, now) is None <==> forall|j: int|
            0 <= j < m.rules.len() ==> (#[trigger] m.rules[j]).id != id@,
        edit_step(OntologyEditOp::DeleteRule { id }, m, now) matches Some(m2) ==> exists|k: int|
            0 <= k < m.rules.len() && (#[trigger] m.rules[k]).id == id@ && (forall|j: int|
                0 <= j < k ==> (#[trigger] m.rules[j]).id != id@) && m2 == (OntologyModel {
                rules: m.rules.remove(k),
                ..m
            }),
        edit_step(OntologyEditOp::CreateRule { def }, m, now) matches Some(m2) ==> edit_step(
            (OntologyEditOp::DeleteRule { id: def.id }),
            m2,
            now,
        ) == Some(m),
{
    lemma_keyed_push_prim::<RuleDef>(m.rules, def@);
    lemma_keyed_remove_prim::<RuleDef>(m.rules, id@);
    if edit_step(OntologyEditOp::CreateRule { def }, m, now) is Some {
        let m2 = (OntologyModel { rules: m.rules.push(def@), ..m });
        assert(OntologyModel { rules: m.rules, ..m2 } == m);
    }
}

/// Code-system writes: creating fails exactly when some code system
/// already has the new one's id, and otherwise appends it and changes
/// nothing else; deleting fails exactly when no code system has the id,
/// and otherwise removes the first one with it and changes nothing else;
/// deleting what was just created gives the ontology back.
pub proof fn lemma_code_system_writes(m: OntologyModel, def: CodeSystemDef, id: String, now: i64)
    ensures
        edit_step(OntologyEditOp::CreateCodeSystem { def }, m, now) is None <==> exists|j: int|
            0 <= j < m.registries.code_systems.len() && (#[trigger] m.registries.code_systems[j]).id == def@.id,
        edit_step(OntologyEditOp::CreateCodeSystem { def }, m, now) is Some ==> edit_step(
            (OntologyEditOp::CreateCodeSystem { def }),
            m,
            now,
        ) == Some(
            (OntologyModel {
                registries: RegistriesModel { code_systems: m.registries.code_systems.push(def@), ..m.registries },
                ..m
            }),
        ),
        edit_step(OntologyEditOp::DeleteCodeSystem { id }, m, now) is None <==> forall|j: int|
            0 <= j < m.registries.code_systems.len() ==> (#[trigger] m.registries.code_systems[j]).id != id@,
        edit_step(OntologyEditOp::DeleteCodeSystem { id }, m, now) matches Some(m2) ==> exists|k: int|
            0 <= k < m.registries.code_systems.len() && (#[trigger] m.registries.code_systems[k]).id == id@
                && (forall|j: int| 0 <= j < k ==> (#[trigger] m.registries.code_systems[j]).id != id@) && m2
                == (OntologyModel {
                registries: RegistriesModel { code_systems: m.registries.code_systems.remove(k), ..m.registries },
                ..m
            }),
        edit_step(OntologyEditOp::CreateCodeSystem { def }, m, now) matches Some(m2) ==> edit_step(
            (OntologyEditOp::DeleteCodeSystem { id: def.id }),
            m2,
            now,
        ) == Some(m),
{
    lemma_keyed_push_prim::<CodeSystemDef>(m.registries.code_systems, def@);
    lemma_keyed_remove_prim::<CodeSystemDef>(m.registries.code_systems, id@);
    if edit_step(OntologyEditOp::CreateCodeSystem { def }, m, now) is Some {
        let r2 = RegistriesModel { code_systems: m.registries.code_systems.push(def@), ..m.registries };
        let m2 = (OntologyModel { registries: r2, ..m });
        assert(RegistriesModel { code_systems: m.registries.code_systems, ..r2 } == m.registries);
        assert(with_code_systems(m2, m.registries.code_systems) == m);
    }
}

} // verus!
