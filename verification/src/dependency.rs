//! Schema-level dependency graph of an [`OntologyIR`]: for every
//! definition entity, which other entities reference it and how.
//!
//! [`SchemaDependencyGraph::build`] records every reference as a
//! `(target, edge)` pair and stores them as an inverted index: one
//! bucket per target, buckets sorted by target, each bucket's edges
//! sorted. The order on entities, kinds and labels is the declaration
//! order of the variants followed by text order on the ids.

use vstd::prelude::*;

use crate::binding::PropertyBinding;
use crate::ir::{
    EdgeModel, EdgeTypeDef, LinkKindModel, LinkMappingDef, LinkMappingKind, LinkMappingModel, NodeModel,
    NodeTypeDef, ObjectMappingDef, ObjectMappingModel, OntologyIR, OntologyModel, PropertyDef,
    PropertyMappingModel, PropertyModel,
};
use crate::model::{lemma_insert_multiset, models};
use crate::rule::{RuleDef, RuleModel, ShaclModel};
use crate::registry::{ConceptMapDef, ConceptMapModel, ValueSetDef, ValueSetModel};
use crate::text::{
    decimal, decimal_string, lemma_str_lt_irreflexive, lemma_str_lt_total, lemma_str_lt_transitive, str_lt,
    str_precedence, Precedence,
};
use vstd::string::StringExecFns;

verus! {

broadcast use vstd::seq_lib::group_to_multiset_ensures;

// ---------------------------------------------------------------------------
// Entities, kinds, edges
// ---------------------------------------------------------------------------

/// Handle of any first-class entity of an ontology.
#[derive(Debug, Clone, PartialEq, Eq, Hash)]
pub enum SchemaEntityRef {
    NodeType { id: String },
    EdgeType { id: String },
    /// A property, qualified by the node or edge type that owns it.
    Property { owner: String, id: String },
    Interface { id: String },
    GlossaryTerm { id: String },
    ValueSet { id: String },
    CodeSystem { id: String },
    NotationPattern { id: String },
    ValueRangeSet { id: String },
    Rule { id: String },
    Function { id: String },
    Metric { id: String },
    Action { id: String },
    Enrichment { id: String },
    ObjectMapping { id: String },
    LinkMapping { id: String },
    ConceptMap { id: String },
    DataQuality { id: String },
    /// A coded value, qualified by its code system.
    CodedValue { code_system: String, id: String },
}

/// Model of an entity handle: the variant's position in declaration
/// order and its (up to two) ids in field order.
pub struct EntityModel {
    pub tag: nat,
    pub first: Seq<char>,
    pub second: Seq<char>,
}

/// An entity with one id.
pub open spec fn ent(tag: nat, id: Seq<char>) -> EntityModel {
    EntityModel { tag, first: id, second: Seq::empty() }
}

impl View for SchemaEntityRef {
    type V = EntityModel;

    open spec fn view(&self) -> EntityModel {
        match self {
            SchemaEntityRef::NodeType { id } => ent(0, id@),
            SchemaEntityRef::EdgeType { id } => ent(1, id@),
            SchemaEntityRef::Property { owner, id } => EntityModel {
                tag: 2,
                first: owner@,
                second: id@,
            },
            SchemaEntityRef::Interface { id } => ent(3, id@),
            SchemaEntityRef::GlossaryTerm { id } => ent(4, id@),
            SchemaEntityRef::ValueSet { id } => ent(5, id@),
            SchemaEntityRef::CodeSystem { id } => ent(6, id@),
            SchemaEntityRef::NotationPattern { id } => ent(7, id@),
            SchemaEntityRef::ValueRangeSet { id } => ent(8, id@),
            SchemaEntityRef::Rule { id } => ent(9, id@),
            SchemaEntityRef::Function { id } => ent(10, id@),
            SchemaEntityRef::Metric { id } => ent(11, id@),
            SchemaEntityRef::Action { id } => ent(12, id@),
            SchemaEntityRef::Enrichment { id } => ent(13, id@),
            SchemaEntityRef::ObjectMapping { id } => ent(14, id@),
            SchemaEntityRef::LinkMapping { id } => ent(15, id@),
            SchemaEntityRef::ConceptMap { id } => ent(16, id@),
            SchemaEntityRef::DataQuality { id } => ent(17, id@),
            SchemaEntityRef::CodedValue { code_system, id } => EntityModel {
                tag: 18,
                first: code_system@,
                second: id@,
            },
        }
    }
}

impl SchemaEntityRef {
    fn tag(&self) -> (r: u8)
        ensures
            r as nat == self@.tag,
    {
        match self {
            SchemaEntityRef::NodeType { .. } => 0,
            SchemaEntityRef::EdgeType { .. } => 1,
            SchemaEntityRef::Property { .. } => 2,
            SchemaEntityRef::Interface { .. } => 3,
            SchemaEntityRef::GlossaryTerm { .. } => 4,
            SchemaEntityRef::ValueSet { .. } => 5,
            SchemaEntityRef::CodeSystem { .. } => 6,
            SchemaEntityRef::NotationPattern { .. } => 7,
            SchemaEntityRef::ValueRangeSet { .. } => 8,
            SchemaEntityRef::Rule { .. } => 9,
            SchemaEntityRef::Function { .. } => 10,
            SchemaEntityRef::Metric { .. } => 11,
            SchemaEntityRef::Action { .. } => 12,
            SchemaEntityRef::Enrichment { .. } => 13,
            SchemaEntityRef::ObjectMapping { .. } => 14,
            SchemaEntityRef::LinkMapping { .. } => 15,
            SchemaEntityRef::ConceptMap { .. } => 16,
            SchemaEntityRef::DataQuality { .. } => 17,
            SchemaEntityRef::CodedValue { .. } => 18,
        }
    }

    fn ids(&self) -> (r: (&str, &str))
        ensures
            r.0@ == self@.first,
            r.1@ == self@.second,
    {
        proof {
            reveal_strlit("");
        }
        match self {
            SchemaEntityRef::Property { owner, id } => (owner.as_str(), id.as_str()),
            SchemaEntityRef::CodedValue { code_system, id } => (code_system.as_str(), id.as_str()),
            SchemaEntityRef::NodeType { id }
            | SchemaEntityRef::EdgeType { id }
            | SchemaEntityRef::Interface { id }
            | SchemaEntityRef::GlossaryTerm { id }
            | SchemaEntityRef::ValueSet { id }
            | SchemaEntityRef::CodeSystem { id }
            | SchemaEntityRef::NotationPattern { id }
            | SchemaEntityRef::ValueRangeSet { id }
            | SchemaEntityRef::Rule { id }
            | SchemaEntityRef::Function { id }
            | SchemaEntityRef::Metric { id }
            | SchemaEntityRef::Action { id }
            | SchemaEntityRef::Enrichment { id }
            | SchemaEntityRef::ObjectMapping { id }
            | SchemaEntityRef::LinkMapping { id }
            | SchemaEntityRef::ConceptMap { id }
            | SchemaEntityRef::DataQuality { id } => (id.as_str(), ""),
        }
    }

    fn copy(&self) -> (r: SchemaEntityRef)
        ensures
            r@ == self@,
    {
        match self {
            SchemaEntityRef::NodeType { id } => SchemaEntityRef::NodeType { id: id.clone() },
            SchemaEntityRef::EdgeType { id } => SchemaEntityRef::EdgeType { id: id.clone() },
            SchemaEntityRef::Property { owner, id } => SchemaEntityRef::Property {
                owner: owner.clone(),
                id: id.clone(),
            },
            SchemaEntityRef::Interface { id } => SchemaEntityRef::Interface { id: id.clone() },
            SchemaEntityRef::GlossaryTerm { id } => SchemaEntityRef::GlossaryTerm { id: id.clone() },
            SchemaEntityRef::ValueSet { id } => SchemaEntityRef::ValueSet { id: id.clone() },
            SchemaEntityRef::CodeSystem { id } => SchemaEntityRef::CodeSystem { id: id.clone() },
            SchemaEntityRef::NotationPattern { id } => SchemaEntityRef::NotationPattern {
                id: id.clone(),
            },
            SchemaEntityRef::ValueRangeSet { id } => SchemaEntityRef::ValueRangeSet {
                id: id.clone(),
            },
            SchemaEntityRef::Rule { id } => SchemaEntityRef::Rule { id: id.clone() },
            SchemaEntityRef::Function { id } => SchemaEntityRef::Function { id: id.clone() },
            SchemaEntityRef::Metric { id } => SchemaEntityRef::Metric { id: id.clone() },
            SchemaEntityRef::Action { id } => SchemaEntityRef::Action { id: id.clone() },
            SchemaEntityRef::Enrichment { id } => SchemaEntityRef::Enrichment { id: id.clone() },
            SchemaEntityRef::ObjectMapping { id } => SchemaEntityRef::ObjectMapping {
                id: id.clone(),
            },
            SchemaEntityRef::LinkMapping { id } => SchemaEntityRef::LinkMapping { id: id.clone() },
            SchemaEntityRef::ConceptMap { id } => SchemaEntityRef::ConceptMap { id: id.clone() },
            SchemaEntityRef::DataQuality { id } => SchemaEntityRef::DataQuality { id: id.clone() },
            SchemaEntityRef::CodedValue { code_system, id } => SchemaEntityRef::CodedValue {
                code_system: code_system.clone(),
                id: id.clone(),
            },
        }
    }
}

/// How a dependent references its target.
#[derive(Debug, Clone, Copy, PartialEq, Eq, Hash, Structural)]
pub enum DependencyKind {
    PropertyOf,
    EdgeSource,
    EdgeTarget,
    InterfaceImplementation,
    PropertyBindingRef,
    FunctionDerivation,
    UnitReference,
    RuleConstraint,
    RuleActivation,
    RuleVocabulary,
    MetricScope,
    ActionTarget,
    ActionRule,
    EnrichmentTarget,
    ObjectMappingTarget,
    LinkMappingTarget,
    PropertyMappingTarget,
    ValueSetComposition,
    ConceptMapEndpoint,
    DataQualityTarget,
}

/// Position of a kind in declaration order.
pub open spec fn kind_index(k: DependencyKind) -> nat {
    match k {
        DependencyKind::PropertyOf => 0,
        DependencyKind::EdgeSource => 1,
        DependencyKind::EdgeTarget => 2,
        DependencyKind::InterfaceImplementation => 3,
        DependencyKind::PropertyBindingRef => 4,
        DependencyKind::FunctionDerivation => 5,
        DependencyKind::UnitReference => 6,
        DependencyKind::RuleConstraint => 7,
        DependencyKind::RuleActivation => 8,
        DependencyKind::RuleVocabulary => 9,
        DependencyKind::MetricScope => 10,
        DependencyKind::ActionTarget => 11,
        DependencyKind::ActionRule => 12,
        DependencyKind::EnrichmentTarget => 13,
        DependencyKind::ObjectMappingTarget => 14,
        DependencyKind::LinkMappingTarget => 15,
        DependencyKind::PropertyMappingTarget => 16,
        DependencyKind::ValueSetComposition => 17,
        DependencyKind::ConceptMapEndpoint => 18,
        DependencyKind::DataQualityTarget => 19,
    }
}

impl DependencyKind {
    fn index(&self) -> (r: u8)
        ensures
            r as nat == kind_index(*self),
    {
        match self {
            DependencyKind::PropertyOf => 0,
            DependencyKind::EdgeSource => 1,
            DependencyKind::EdgeTarget => 2,
            DependencyKind::InterfaceImplementation => 3,
            DependencyKind::PropertyBindingRef => 4,
            DependencyKind::FunctionDerivation => 5,
            DependencyKind::UnitReference => 6,
            DependencyKind::RuleConstraint => 7,
            DependencyKind::RuleActivation => 8,
            DependencyKind::RuleVocabulary => 9,
            DependencyKind::MetricScope => 10,
            DependencyKind::ActionTarget => 11,
            DependencyKind::ActionRule => 12,
            DependencyKind::EnrichmentTarget => 13,
            DependencyKind::ObjectMappingTarget => 14,
            DependencyKind::LinkMappingTarget => 15,
            DependencyKind::PropertyMappingTarget => 16,
            DependencyKind::ValueSetComposition => 17,
            DependencyKind::ConceptMapEndpoint => 18,
            DependencyKind::DataQualityTarget => 19,
        }
    }
}

/// One reverse edge: `dependent` references the bucket's target.
#[derive(Debug, Clone, PartialEq, Eq)]
pub struct DependencyEdge {
    pub dependent: SchemaEntityRef,
    pub kind: DependencyKind,
    /// Short summary of how the dependent references the target.
    pub label: String,
}

/// Model of a [`DependencyEdge`].
pub struct EdgeRefModel {
    pub dependent: EntityModel,
    pub kind: nat,
    pub label: Seq<char>,
}

impl View for DependencyEdge {
    type V = EdgeRefModel;

    open spec fn view(&self) -> EdgeRefModel {
        EdgeRefModel { dependent: self.dependent@, kind: kind_index(self.kind), label: self.label@ }
    }
}

/// A target with every inbound edge.
#[derive(Debug, Clone, PartialEq, Eq)]
pub struct DependencyBucket {
    pub target: SchemaEntityRef,
    pub edges: Vec<DependencyEdge>,
}

/// Model of a [`DependencyBucket`].
pub struct BucketModel {
    pub target: EntityModel,
    pub edges: Seq<EdgeRefModel>,
}

impl View for DependencyBucket {
    type V = BucketModel;

    open spec fn view(&self) -> BucketModel {
        BucketModel { target: self.target@, edges: models(self.edges@) }
    }
}

/// A recorded reference: the target and the edge pointing at it.
pub type RefPair = (EntityModel, EdgeRefModel);

// ---------------------------------------------------------------------------
// Order
// ---------------------------------------------------------------------------

/// Strict order on entities: variant, then ids.
pub open spec fn ent_lt(a: EntityModel, b: EntityModel) -> bool {
    a.tag < b.tag || (a.tag == b.tag && (str_lt(a.first, b.first) || (a.first == b.first
        && str_lt(a.second, b.second))))
}

/// Strict order on edges: kind, then dependent, then label.
pub open spec fn edge_lt(a: EdgeRefModel, b: EdgeRefModel) -> bool {
    a.kind < b.kind || (a.kind == b.kind && (ent_lt(a.dependent, b.dependent) || (a.dependent
        == b.dependent && str_lt(a.label, b.label))))
}

proof fn lemma_ent_lt_order(a: EntityModel, b: EntityModel, c: EntityModel)
    ensures
        !ent_lt(a, a),
        ent_lt(a, b) && ent_lt(b, c) ==> ent_lt(a, c),
        a == b || ent_lt(a, b) || ent_lt(b, a),
{
    lemma_str_lt_irreflexive(a.first);
    lemma_str_lt_irreflexive(a.second);
    lemma_str_lt_total(a.first, b.first);
    lemma_str_lt_total(a.second, b.second);
    if str_lt(a.first, b.first) && str_lt(b.first, c.first) {
        lemma_str_lt_transitive(a.first, b.first, c.first);
    }
    if str_lt(a.second, b.second) && str_lt(b.second, c.second) {
        lemma_str_lt_transitive(a.second, b.second, c.second);
    }
}

proof fn lemma_edge_lt_order(a: EdgeRefModel, b: EdgeRefModel, c: EdgeRefModel)
    ensures
        !edge_lt(a, a),
        edge_lt(a, b) && edge_lt(b, c) ==> edge_lt(a, c),
        a == b || edge_lt(a, b) || edge_lt(b, a),
{
    lemma_ent_lt_order(a.dependent, b.dependent, c.dependent);
    lemma_ent_lt_order(a.dependent, a.dependent, a.dependent);
    lemma_ent_lt_order(b.dependent, a.dependent, c.dependent);
    lemma_str_lt_irreflexive(a.label);
    lemma_str_lt_total(a.label, b.label);
    if str_lt(a.label, b.label) && str_lt(b.label, c.label) {
        lemma_str_lt_transitive(a.label, b.label, c.label);
    }
}

fn entity_precedence(a: &SchemaEntityRef, b: &SchemaEntityRef) -> (r: Precedence)
    ensures
        r == Precedence::Before <==> ent_lt(a@, b@),
        r == Precedence::Same <==> a@ == b@,
        r == Precedence::After <==> ent_lt(b@, a@),
{
    proof {
        lemma_ent_lt_order(a@, b@, a@);
        lemma_ent_lt_order(b@, a@, b@);
    }
    let (x, y) = (a.tag(), b.tag());
    if x < y {
        return Precedence::Before;
    }
    if y < x {
        return Precedence::After;
    }
    let (a1, a2) = a.ids();
    let (b1, b2) = b.ids();
    match str_precedence(a1, b1) {
        Precedence::Before => Precedence::Before,
        Precedence::After => Precedence::After,
        Precedence::Same => str_precedence(a2, b2),
    }
}

fn edge_precedence(a: &DependencyEdge, b: &DependencyEdge) -> (r: Precedence)
    ensures
        r == Precedence::Before <==> edge_lt(a@, b@),
        r == Precedence::Same <==> a@ == b@,
        r == Precedence::After <==> edge_lt(b@, a@),
{
    proof {
        lemma_edge_lt_order(a@, b@, a@);
        lemma_edge_lt_order(b@, a@, b@);
    }
    let (x, y) = (a.kind.index(), b.kind.index());
    if x < y {
        return Precedence::Before;
    }
    if y < x {
        return Precedence::After;
    }
    match entity_precedence(&a.dependent, &b.dependent) {
        Precedence::Before => Precedence::Before,
        Precedence::After => Precedence::After,
        Precedence::Same => str_precedence(a.label.as_str(), b.label.as_str()),
    }
}

// ---------------------------------------------------------------------------
// The index invariant
// ---------------------------------------------------------------------------

/// Targets strictly increase.
pub open spec fn targets_sorted(bs: Seq<BucketModel>) -> bool {
    forall|i: int, j: int| 0 <= i < j < bs.len() ==> ent_lt(#[trigger] bs[i].target, #[trigger] bs[j].target)
}

/// Edges never decrease.
pub open spec fn edges_sorted(es: Seq<EdgeRefModel>) -> bool {
    forall|a: int, b: int| 0 <= a < b < es.len() ==> !edge_lt(#[trigger] es[b], #[trigger] es[a])
}

/// Every bucket is non-empty and sorted.
pub open spec fn buckets_sorted(bs: Seq<BucketModel>) -> bool {
    forall|i: int| 0 <= i < bs.len() ==> (#[trigger] bs[i]).edges.len() > 0 && edges_sorted(bs[i].edges)
}

/// Every bucket holds exactly the recorded edges of its target, and
/// every recorded target has a bucket.
pub open spec fn buckets_match(bs: Seq<BucketModel>, raw: Seq<RefPair>) -> bool {
    &&& forall|i: int, e: EdgeRefModel|
        0 <= i < bs.len() ==> #[trigger] bs[i].edges.to_multiset().count(e)
            == raw.to_multiset().count((bs[i].target, e))
    &&& forall|p: RefPair| #[trigger] raw.to_multiset().count(p) > 0 ==> exists|i: int|
        0 <= i < bs.len() && (#[trigger] bs[i]).target == p.0
}

/// Number of edges over all buckets.
pub open spec fn total_edges(bs: Seq<BucketModel>) -> nat
    decreases bs.len(),
{
    if bs.len() == 0 {
        0
    } else {
        total_edges(bs.subrange(0, bs.len() - 1)) + bs[bs.len() - 1].edges.len()
    }
}

/// `bs` is the sorted inverted index of the recorded references `raw`.
pub open spec fn indexes(bs: Seq<BucketModel>, raw: Seq<RefPair>) -> bool {
    &&& targets_sorted(bs)
    &&& buckets_sorted(bs)
    &&& buckets_match(bs, raw)
    &&& total_edges(bs) == raw.len()
}

proof fn lemma_total_update(bs: Seq<BucketModel>, i: int, b: BucketModel)
    requires
        0 <= i < bs.len(),
    ensures
        total_edges(bs.update(i, b)) + bs[i].edges.len() == total_edges(bs) + b.edges.len(),
    decreases bs.len(),
{
    let n = bs.len();
    let u = bs.update(i, b);
    if i == n - 1 {
        assert(u.subrange(0, n - 1) =~= bs.subrange(0, n - 1));
    } else {
        assert(u.subrange(0, n - 1) =~= bs.subrange(0, n - 1).update(i, b));
        lemma_total_update(bs.subrange(0, n - 1), i, b);
    }
}

proof fn lemma_total_insert(bs: Seq<BucketModel>, i: int, b: BucketModel)
    requires
        0 <= i <= bs.len(),
    ensures
        total_edges(bs.insert(i, b)) == total_edges(bs) + b.edges.len(),
    decreases bs.len(),
{
    let n = bs.len();
    let u = bs.insert(i, b);
    if i == n {
        assert(u.subrange(0, n as int) =~= bs);
    } else {
        assert(u.subrange(0, n as int) =~= bs.subrange(0, n - 1).insert(i, b));
        assert(u[n as int] == bs[n - 1]);
        lemma_total_insert(bs.subrange(0, n - 1), i, b);
    }
}

/// Record one reference: add `edge` to the bucket of `target` at its
/// sorted position, opening the bucket at its sorted position if needed.
fn add_ref(
    buckets: &mut Vec<DependencyBucket>,
    target: SchemaEntityRef,
    edge: DependencyEdge,
    Ghost(raw): Ghost<Seq<RefPair>>,
)
    requires
        indexes(models(old(buckets)@), raw),
    ensures
        indexes(models(final(buckets)@), raw.push((target@, edge@))),
{
    let ghost bs = models(buckets@);
    let ghost t = target@;
    let ghost x = edge@;
    let ghost raw2 = raw.push((t, x));
    let n = buckets.len();
    let mut i: usize = 0;
    while i < n && entity_precedence(&buckets[i].target, &target) == Precedence::Before
        invariant
            n == buckets.len(),
            bs == models(buckets@),
            t == target@,
            i <= n,
            forall|k: int| 0 <= k < i ==> ent_lt(#[trigger] bs[k].target, t),
        decreases n - i,
    {
        assert(bs[i as int] == buckets@[i as int]@);
        i = i + 1;
    }
    proof {
        assert forall|k: int, l: int| 0 <= k < bs.len() && 0 <= l < bs.len() && k != l implies (
        #[trigger] bs[k]).target != (#[trigger] bs[l]).target by {
            lemma_ent_lt_order(bs[k].target, bs[l].target, bs[k].target);
        }
    }
    if i < n && entity_precedence(&buckets[i].target, &target) == Precedence::Same {
        assert(bs[i as int] == buckets@[i as int]@);
        let mut b = buckets.remove(i);
        let ghost es = models(b.edges@);
        let m = b.edges.len();
        let mut j: usize = 0;
        while j < m && edge_precedence(&edge, &b.edges[j]) != Precedence::Before
            invariant
                m == b.edges.len(),
                es == models(b.edges@),
                x == edge@,
                j <= m,
                forall|a: int| 0 <= a < j ==> !edge_lt(x, #[trigger] es[a]),
            decreases m - j,
        {
            assert(es[j as int] == b.edges@[j as int]@);
            j = j + 1;
        }
        let ghost stop = j < m;
        proof {
            if stop {
                assert(es[j as int] == b.edges@[j as int]@);
            }
        }
        b.edges.insert(j, edge);
        let ghost es2 = models(b.edges@);
        proof {
            assert(es2 =~= es.insert(j as int, x));
            lemma_insert_multiset(es, j as int, x);
            let bi = bs[i as int];
            assert(edges_sorted(bi.edges));
            assert forall|a: int, c: int| 0 <= a < c < es2.len() implies !edge_lt(
                #[trigger] es2[c],
                #[trigger] es2[a],
            ) by {
                if c < j {
                    assert(es2[a] == es[a] && es2[c] == es[c]);
                } else if c == j {
                    assert(es2[a] == es[a]);
                } else if a == j {
                    assert(es2[c] == es[c - 1]);
                    lemma_edge_lt_order(es[c - 1], x, es[j as int]);
                    if j < c - 1 {
                        assert(!edge_lt(es[c - 1], es[j as int]));
                    }
                } else if a < j {
                    assert(es2[a] == es[a] && es2[c] == es[c - 1]);
                } else {
                    assert(es2[a] == es[a - 1] && es2[c] == es[c - 1]);
                }
            }
        }
        buckets.insert(i, b);
        proof {
            let bs2 = models(buckets@);
            let nb = BucketModel { target: t, edges: es2 };
            assert(bs2 =~= bs.update(i as int, nb));
            lemma_total_update(bs, i as int, nb);
            assert forall|k: int, e: EdgeRefModel| 0 <= k < bs2.len() implies #[trigger] bs2[k].edges.to_multiset().count(
                e,
            ) == raw2.to_multiset().count((bs2[k].target, e)) by {
                if k != i {
                    assert(bs2[k] == bs[k]);
                    assert(bs[k].target != t);
                    assert(bs[k].edges.to_multiset().count(e) == raw.to_multiset().count((bs[k].target, e)));
                } else {
                    assert(bs[i as int].edges.to_multiset().count(e) == raw.to_multiset().count((t, e)));
                }
            }
            assert forall|p: RefPair| #[trigger] raw2.to_multiset().count(p) > 0 implies exists|k: int|
                0 <= k < bs2.len() && (#[trigger] bs2[k]).target == p.0 by {
                if p == (t, x) {
                    assert(bs2[i as int].target == t);
                } else {
                    assert(raw.to_multiset().count(p) > 0);
                    let k = choose|k: int| 0 <= k < bs.len() && (#[trigger] bs[k]).target == p.0;
                    assert(bs2[k].target == bs[k].target);
                }
            }
            assert forall|k: int| 0 <= k < bs2.len() implies (#[trigger] bs2[k]).edges.len() > 0 && edges_sorted(bs2[k].edges) by {
                if k != i {
                    assert(bs2[k] == bs[k]);
                }
            }
            assert forall|k: int, l: int| 0 <= k < l < bs2.len() implies ent_lt(#[trigger] bs2[k].target, #[trigger] bs2[l].target) by {
                assert(bs2[k].target == bs[k].target && bs2[l].target == bs[l].target);
            }
        }
    } else {
        let mut edges: Vec<DependencyEdge> = Vec::new();
        edges.push(edge);
        let nb = DependencyBucket { target, edges };
        proof {
            if i < n {
                assert(bs[i as int] == buckets@[i as int]@);
                lemma_ent_lt_order(t, bs[i as int].target, t);
            }
        }
        buckets.insert(i, nb);
        proof {
            let bs2 = models(buckets@);
            let m = nb@;
            assert(m.edges =~= seq![x]);
            assert(bs2 =~= bs.insert(i as int, m));
            lemma_total_insert(bs, i as int, m);
            lemma_ent_lt_order(t, t, t);
            assert forall|k: int| 0 <= k < bs.len() implies (#[trigger] bs[k]).target != t by {
                if k < i {
                    assert(ent_lt(bs[k].target, t));
                } else if k > i {
                    assert(ent_lt(bs[i as int].target, bs[k].target));
                    lemma_ent_lt_order(t, bs[i as int].target, bs[k].target);
                }
            }
            assert forall|k: int, e: EdgeRefModel| 0 <= k < bs2.len() implies #[trigger] bs2[k].edges.to_multiset().count(
                e,
            ) == raw2.to_multiset().count((bs2[k].target, e)) by {
                if k < i {
                    assert(bs2[k] == bs[k]);
                    assert(bs[k].edges.to_multiset().count(e) == raw.to_multiset().count((bs[k].target, e)));
                } else if k > i {
                    assert(bs2[k] == bs[k - 1]);
                    assert(bs[k - 1].edges.to_multiset().count(e) == raw.to_multiset().count((bs[k - 1].target, e)));
                } else {
                    assert(bs2[k] == m);
                    assert(seq![x] =~= Seq::<EdgeRefModel>::empty().push(x));
                    assert(Seq::<EdgeRefModel>::empty().to_multiset() =~= vstd::multiset::Multiset::empty());
                    if raw.to_multiset().count((t, e)) > 0 {
                        let kk = choose|kk: int| 0 <= kk < bs.len() && (#[trigger] bs[kk]).target == t;
                        assert(bs[kk].target != t);
                    }
                }
            }
            assert forall|p: RefPair| #[trigger] raw2.to_multiset().count(p) > 0 implies exists|k: int|
                0 <= k < bs2.len() && (#[trigger] bs2[k]).target == p.0 by {
                if p == (t, x) {
                    assert(bs2[i as int].target == t);
                } else {
                    assert(raw.to_multiset().count(p) > 0);
                    let k = choose|k: int| 0 <= k < bs.len() && (#[trigger] bs[k]).target == p.0;
                    if k < i {
                        assert(bs2[k] == bs[k]);
                    } else {
                        assert(bs2[k + 1] == bs[k]);
                    }
                }
            }
            assert forall|k: int| 0 <= k < bs2.len() implies (#[trigger] bs2[k]).edges.len() > 0 && edges_sorted(bs2[k].edges) by {
                if k < i {
                    assert(bs2[k] == bs[k]);
                } else if k > i {
                    assert(bs2[k] == bs[k - 1]);
                }
            }
            assert forall|k: int, l: int| 0 <= k < l < bs2.len() implies ent_lt(#[trigger] bs2[k].target, #[trigger] bs2[l].target) by {
                if l < i {
                    assert(bs2[k] == bs[k] && bs2[l] == bs[l]);
                } else if l == i {
                    assert(bs2[k] == bs[k]);
                } else if k == i {
                    assert(bs2[l] == bs[l - 1]);
                    if l - 1 > i {
                        lemma_ent_lt_order(t, bs[i as int].target, bs[l - 1].target);
                    }
                } else if k < i {
                    assert(bs2[k] == bs[k] && bs2[l] == bs[l - 1]);
                } else {
                    assert(bs2[k] == bs[k - 1] && bs2[l] == bs[l - 1]);
                }
            }
        }
    }
}

// ---------------------------------------------------------------------------
// The references of an ontology
// ---------------------------------------------------------------------------

/// Concatenation of `f` over `s`, in order.
pub open spec fn concat_map<A>(s: Seq<A>, f: spec_fn(A) -> Seq<RefPair>) -> Seq<RefPair>
    decreases s.len(),
{
    if s.len() == 0 {
        Seq::empty()
    } else {
        concat_map(s.subrange(0, s.len() - 1), f) + f(s[s.len() - 1])
    }
}

proof fn lemma_concat_map_step<A>(s: Seq<A>, f: spec_fn(A) -> Seq<RefPair>, i: int)
    requires
        0 <= i < s.len(),
    ensures
        concat_map(s.subrange(0, i + 1), f) == concat_map(s.subrange(0, i), f) + f(s[i]),
{
    let t = s.subrange(0, i + 1);
    assert(t.subrange(0, i) =~= s.subrange(0, i));
    assert(t[i] == s[i]);
}

/// An edge model.
pub open spec fn dep(dependent: EntityModel, kind: DependencyKind, label: Seq<char>) -> EdgeRefModel {
    EdgeRefModel { dependent, kind: kind_index(kind), label }
}

/// The entity of property `id` owned by `owner`.
pub open spec fn prop_ent(owner: Seq<char>, id: Seq<char>) -> EntityModel {
    EntityModel { tag: 2, first: owner, second: id }
}

/// Label naming a property: "property `name`" and a suffix.
pub open spec fn prop_label(name: Seq<char>, suffix: Seq<char>) -> Seq<char> {
    "property `"@ + name + suffix
}

/// The reference a binding of a property makes: to the registry entry
/// it names; a concept binding makes none.
pub open spec fn binding_ref(owner: Seq<char>, p: PropertyModel, b: crate::binding::BindingModel) -> Seq<RefPair> {
    let d = prop_ent(owner, p.id);
    match b.kind {
        crate::binding::BindingKind::ValueSet => seq![
            (ent(5, b.id), dep(d, DependencyKind::PropertyBindingRef, prop_label(p.name, "` value-set binding"@))),
        ],
        crate::binding::BindingKind::CodeSystem => seq![
            (ent(6, b.id), dep(d, DependencyKind::PropertyBindingRef, prop_label(p.name, "` code-system binding"@))),
        ],
        crate::binding::BindingKind::NotationPattern => seq![
            (
                ent(7, b.id),
                dep(d, DependencyKind::PropertyBindingRef, prop_label(p.name, "` notation-pattern binding"@)),
            ),
        ],
        crate::binding::BindingKind::ValueRange => seq![
            (ent(8, b.id), dep(d, DependencyKind::PropertyBindingRef, prop_label(p.name, "` value-range binding"@))),
        ],
        crate::binding::BindingKind::Glossary => seq![
            (ent(4, b.id), dep(d, DependencyKind::PropertyBindingRef, prop_label(p.name, "` glossary binding"@))),
        ],
        crate::binding::BindingKind::Concept => Seq::empty(),
    }
}

/// Binding references as a function of the binding.
pub open spec fn binding_refs_of(owner: Seq<char>, p: PropertyModel) -> spec_fn(
    crate::binding::BindingModel,
) -> Seq<RefPair> {
    |b: crate::binding::BindingModel| binding_ref(owner, p, b)
}

/// References a property makes: its bindings, its deriving function
/// and its unit.
pub open spec fn prop_refs(owner: Seq<char>, p: PropertyModel) -> Seq<RefPair> {
    let d = prop_ent(owner, p.id);
    concat_map(p.bindings, binding_refs_of(owner, p)) + match p.derived_from {
        Some(f) => seq![
            (ent(10, f), dep(d, DependencyKind::FunctionDerivation, prop_label(p.name, "` derived_from"@))),
        ],
        None => Seq::empty(),
    } + match p.unit_id {
        Some(u) => seq![
            (
                EntityModel { tag: 18, first: Seq::empty(), second: u },
                dep(d, DependencyKind::UnitReference, prop_label(p.name, "` unit"@)),
            ),
        ],
        None => Seq::empty(),
    }
}

/// References of a property of `owner` (whose entity is `owner_ent`):
/// the property belongs to its owner, then its own references.
pub open spec fn owned_prop_refs(owner: Seq<char>, owner_ent: EntityModel) -> spec_fn(PropertyModel) -> Seq<
    RefPair,
> {
    |p: PropertyModel|
        seq![
            (owner_ent, dep(prop_ent(owner, p.id), DependencyKind::PropertyOf, prop_label(p.name, "`"@))),
        ] + prop_refs(owner, p)
}

/// A reference to the entity with id `id` and variant `tag`, all with
/// the same edge.
pub open spec fn id_refs(tag: nat, e: EdgeRefModel) -> spec_fn(Seq<char>) -> Seq<RefPair> {
    |id: Seq<char>| seq![(ent(tag, id), e)]
}

/// Label "<prefix>`<name>`".
pub open spec fn quoted(prefix: Seq<char>, name: Seq<char>) -> Seq<char> {
    prefix + "`"@ + name + "`"@
}

/// References of a node type.
pub open spec fn node_refs(n: NodeModel) -> Seq<RefPair> {
    let me = ent(0, n.id);
    concat_map(n.properties, owned_prop_refs(n.id, me)) + concat_map(
        n.implements,
        id_refs(3, dep(me, DependencyKind::InterfaceImplementation, quoted("implemented by "@, n.label))),
    ) + concat_map(
        n.rules,
        id_refs(9, dep(me, DependencyKind::RuleConstraint, quoted("attached to "@, n.label))),
    ) + concat_map(
        n.actions,
        id_refs(12, dep(me, DependencyKind::ActionTarget, quoted("attached to "@, n.label))),
    ) + concat_map(
        n.metrics,
        id_refs(11, dep(me, DependencyKind::MetricScope, quoted("scoped to "@, n.label))),
    )
}

/// References of an edge type: its endpoints and its properties.
pub open spec fn edge_refs(e: EdgeModel) -> Seq<RefPair> {
    let me = ent(1, e.id);
    seq![
        (ent(0, e.source_node_id), dep(me, DependencyKind::EdgeSource, quoted("source of "@, e.label))),
        (ent(0, e.target_node_id), dep(me, DependencyKind::EdgeTarget, quoted("target of "@, e.label))),
    ] + concat_map(e.properties, owned_prop_refs(e.id, me))
}

/// Label "rule `<id>`" and a suffix.
pub open spec fn rule_label(id: Seq<char>, suffix: Seq<char>) -> Seq<char> {
    "rule `"@ + id + suffix
}

/// The target a rule's kind references.
pub open spec fn kind_refs(r: RuleModel) -> Seq<RefPair> {
    let me = ent(9, r.id);
    match r.kind.tag {
        crate::rule::RuleKindTag::NodeShape => seq![
            (ent(0, r.kind.first), dep(me, DependencyKind::RuleConstraint, rule_label(r.id, "` (NodeShape)"@))),
        ],
        crate::rule::RuleKindTag::PropertyShape => seq![
            (
                prop_ent(r.kind.first, r.kind.second),
                dep(me, DependencyKind::RuleConstraint, rule_label(r.id, "` (PropertyShape)"@)),
            ),
        ],
        crate::rule::RuleKindTag::EdgeShape => seq![
            (ent(1, r.kind.first), dep(me, DependencyKind::RuleConstraint, rule_label(r.id, "` (EdgeShape)"@))),
        ],
        _ => Seq::empty(),
    }
}

/// References of a constraint of rule `rid`: an explicit property
/// target, then the value set or notation pattern it checks against.
pub open spec fn constraint_refs(rid: Seq<char>) -> spec_fn(ShaclModel) -> Seq<RefPair> {
    |c: ShaclModel|
        {
            let me = ent(9, rid);
            let target_refs = match c.target {
                Some(t) => if t.kind == crate::rule::TargetKind::Property {
                    seq![
                        (
                            prop_ent(t.node_type_id, t.property_id),
                            dep(me, DependencyKind::RuleConstraint, rule_label(rid, "` constraint"@)),
                        ),
                    ]
                } else {
                    Seq::empty()
                },
                None => Seq::empty(),
            };
            let vocabulary_refs = if c.kind == crate::rule::ConstraintKind::InValueSet {
                seq![
                    (
                        ent(5, c.reference),
                        dep(me, DependencyKind::RuleVocabulary, rule_label(rid, "` InValueSet"@)),
                    ),
                ]
            } else if c.kind == crate::rule::ConstraintKind::MatchesPattern {
                seq![
                    (
                        ent(7, c.reference),
                        dep(me, DependencyKind::RuleVocabulary, rule_label(rid, "` MatchesPattern"@)),
                    ),
                ]
            } else {
                Seq::empty()
            };
            target_refs + vocabulary_refs
        }
}

/// References of a rule: its kind's target, its constraints, the
/// action that activates it.
pub open spec fn rule_refs(r: RuleModel) -> Seq<RefPair> {
    kind_refs(r) + concat_map(r.constraints, constraint_refs(r.id)) + match r.activation {
        Some(a) => seq![
            (
                ent(12, a),
                dep(ent(9, r.id), DependencyKind::RuleActivation, rule_label(r.id, "` activates on action"@)),
            ),
        ],
        None => Seq::empty(),
    }
}

/// References of an object mapping's property mappings.
pub open spec fn pm_refs(o: ObjectMappingModel) -> spec_fn(PropertyMappingModel) -> Seq<RefPair> {
    |pm: PropertyMappingModel|
        seq![
            (
                prop_ent(o.node_type_id, pm.property_id),
                dep(ent(14, o.id), DependencyKind::PropertyMappingTarget, "object-mapping property binding"@),
            ),
        ]
}

/// References of an object mapping.
pub open spec fn om_refs(o: ObjectMappingModel) -> Seq<RefPair> {
    seq![
        (
            ent(0, o.node_type_id),
            dep(ent(14, o.id), DependencyKind::ObjectMappingTarget, quoted("mapped to relation "@, o.relation)),
        ),
    ] + concat_map(o.property_mappings, pm_refs(o))
}

/// Label of a link mapping's kind.
pub open spec fn link_label(k: LinkKindModel) -> Seq<char> {
    match k {
        LinkKindModel::ForeignKey => "foreign-key link"@,
        LinkKindModel::Bridge => "bridge-relation link"@,
        LinkKindModel::Computed { .. } => "computed link"@,
        LinkKindModel::Federated => "federated link"@,
    }
}

/// References of a link mapping.
pub open spec fn lm_refs(l: LinkMappingModel) -> Seq<RefPair> {
    seq![(ent(1, l.edge_type_id), dep(ent(15, l.id), DependencyKind::LinkMappingTarget, link_label(l.kind)))]
}

/// The reference of composition rule `k` of a value set: the value set
/// depends on the rule's code system.
pub open spec fn vs_rule_ref(v: ValueSetModel, k: int) -> RefPair {
    (
        ent(6, v.composition[k].system_id),
        dep(
            ent(5, v.id),
            DependencyKind::ValueSetComposition,
            "value set `"@ + v.name + "` composition rule "@ + decimal(k as nat),
        ),
    )
}

/// References of a value set: one per composition rule, in order.
pub open spec fn vs_refs(v: ValueSetModel) -> Seq<RefPair> {
    Seq::new(v.composition.len(), |k: int| vs_rule_ref(v, k))
}

/// References of a concept map: its source, then its target code system.
pub open spec fn cm_refs(c: ConceptMapModel) -> Seq<RefPair> {
    seq![
        (
            ent(6, c.source_system_id),
            dep(ent(16, c.id), DependencyKind::ConceptMapEndpoint, "concept map `"@ + c.name + "` source"@),
        ),
        (
            ent(6, c.target_system_id),
            dep(ent(16, c.id), DependencyKind::ConceptMapEndpoint, "concept map `"@ + c.name + "` target"@),
        ),
    ]
}

/// References of an enrichment: to the node type it fills.
pub open spec fn en_refs(e: crate::enrichment::EnrichmentModel) -> Seq<RefPair> {
    seq![
        (
            ent(0, e.target_node_type_id),
            dep(ent(13, e.id), DependencyKind::EnrichmentTarget, "enrichment `"@ + e.name + "`"@),
        ),
    ]
}

/// The edge an action records against each rule it checks.
pub open spec fn action_edge(a: crate::action::ActionModel) -> EdgeRefModel {
    dep(ent(12, a.id), DependencyKind::ActionRule, "action `"@ + a.name + "` references rule"@)
}

/// References of an action: its preconditions, then its postconditions.
pub open spec fn act_refs(a: crate::action::ActionModel) -> Seq<RefPair> {
    concat_map(a.preconditions, id_refs(9, action_edge(a))) + concat_map(
        a.postconditions,
        id_refs(9, action_edge(a)),
    )
}

/// Enrichment references as a function.
pub open spec fn en_refs_fn() -> spec_fn(crate::enrichment::EnrichmentModel) -> Seq<RefPair> {
    |e: crate::enrichment::EnrichmentModel| en_refs(e)
}

/// Action references as a function.
pub open spec fn act_refs_fn() -> spec_fn(crate::action::ActionModel) -> Seq<RefPair> {
    |a: crate::action::ActionModel| act_refs(a)
}

/// Value-set references as a function.
pub open spec fn vs_refs_fn() -> spec_fn(ValueSetModel) -> Seq<RefPair> {
    |v: ValueSetModel| vs_refs(v)
}

/// Concept-map references as a function.
pub open spec fn cm_refs_fn() -> spec_fn(ConceptMapModel) -> Seq<RefPair> {
    |c: ConceptMapModel| cm_refs(c)
}

/// Node references as a function.
pub open spec fn node_refs_fn() -> spec_fn(NodeModel) -> Seq<RefPair> {
    |n: NodeModel| node_refs(n)
}

/// Edge references as a function.
pub open spec fn edge_refs_fn() -> spec_fn(EdgeModel) -> Seq<RefPair> {
    |e: EdgeModel| edge_refs(e)
}

/// Rule references as a function.
pub open spec fn rule_refs_fn() -> spec_fn(RuleModel) -> Seq<RefPair> {
    |r: RuleModel| rule_refs(r)
}

/// Object-mapping references as a function.
pub open spec fn om_refs_fn() -> spec_fn(ObjectMappingModel) -> Seq<RefPair> {
    |o: ObjectMappingModel| om_refs(o)
}

/// Link-mapping references as a function.
pub open spec fn lm_refs_fn() -> spec_fn(LinkMappingModel) -> Seq<RefPair> {
    |l: LinkMappingModel| lm_refs(l)
}

/// Every reference of an ontology, in walk order.
pub open spec fn all_refs(m: OntologyModel) -> Seq<RefPair> {
    concat_map(m.node_types, node_refs_fn()) + concat_map(m.edge_types, edge_refs_fn()) + concat_map(
        m.rules,
        rule_refs_fn(),
    ) + concat_map(m.object_mappings, om_refs_fn()) + concat_map(m.link_mappings, lm_refs_fn())
        + concat_map(m.registries.value_sets, vs_refs_fn()) + concat_map(
        m.registries.concept_maps,
        cm_refs_fn(),
    ) + concat_map(m.enrichments, en_refs_fn()) + concat_map(m.actions, act_refs_fn())
}

// ---------------------------------------------------------------------------
// Walking an ontology
// ---------------------------------------------------------------------------

proof fn lemma_extend<A>(raw: Seq<RefPair>, s: Seq<A>, f: spec_fn(A) -> Seq<RefPair>, k: int)
    requires
        0 <= k < s.len(),
    ensures
        raw + concat_map(s.subrange(0, k + 1), f) == (raw + concat_map(s.subrange(0, k), f)) + f(s[k]),
{
    lemma_concat_map_step(s, f, k);
    assert(raw + concat_map(s.subrange(0, k + 1), f) =~= (raw + concat_map(s.subrange(0, k), f)) + f(s[k]));
}

proof fn lemma_concat_map_all<A>(s: Seq<A>, f: spec_fn(A) -> Seq<RefPair>)
    ensures
        concat_map(s.subrange(0, s.len() as int), f) == concat_map(s, f),
{
    assert(s.subrange(0, s.len() as int) =~= s);
}

fn text3(a: &str, b: &str, c: &str) -> (r: String)
    ensures
        r@ == a@ + b@ + c@,
{
    let mut t = String::from_str(a);
    t.append(b);
    t.append(c);
    t
}

fn quoted_text(prefix: &str, name: &str) -> (r: String)
    ensures
        r@ == quoted(prefix@, name@),
{
    let mut t = String::from_str(prefix);
    t.append("`");
    t.append(name);
    t.append("`");
    t
}

/// Record `(target, dependent --kind/label-->)`.
fn add_edge(
    buckets: &mut Vec<DependencyBucket>,
    target: SchemaEntityRef,
    dependent: SchemaEntityRef,
    kind: DependencyKind,
    label: String,
    Ghost(raw): Ghost<Seq<RefPair>>,
)
    requires
        indexes(models(old(buckets)@), raw),
    ensures
        indexes(models(final(buckets)@), raw + seq![(target@, dep(dependent@, kind, label@))]),
{
    let ghost p = (target@, dep(dependent@, kind, label@));
    add_ref(buckets, target, DependencyEdge { dependent, kind, label }, Ghost(raw));
    assert(raw.push(p) =~= raw + seq![p]);
}

/// The entity of variant `tag` with one id.
fn entity_with_tag(tag: u8, id: String) -> (r: SchemaEntityRef)
    requires
        tag == 3 || tag == 9 || tag == 11 || tag == 12,
    ensures
        r@ == ent(tag as nat, id@),
{
    if tag == 3 {
        SchemaEntityRef::Interface { id }
    } else if tag == 9 {
        SchemaEntityRef::Rule { id }
    } else if tag == 11 {
        SchemaEntityRef::Metric { id }
    } else {
        SchemaEntityRef::Action { id }
    }
}

fn walk_ids(
    buckets: &mut Vec<DependencyBucket>,
    ids: &Vec<String>,
    tag: u8,
    dependent: &SchemaEntityRef,
    kind: DependencyKind,
    label: &String,
    Ghost(raw): Ghost<Seq<RefPair>>,
)
    requires
        tag == 3 || tag == 9 || tag == 11 || tag == 12,
        indexes(models(old(buckets)@), raw),
    ensures
        indexes(
            models(final(buckets)@),
            raw + concat_map(
                crate::model::texts(ids@),
                id_refs(tag as nat, dep(dependent@, kind, label@)),
            ),
        ),
{
    let ghost s = crate::model::texts(ids@);
    let ghost f = id_refs(tag as nat, dep(dependent@, kind, label@));
    let mut k: usize = 0;
    while k < ids.len()
        invariant
            tag == 3 || tag == 9 || tag == 11 || tag == 12,
            k <= ids.len(),
            s == crate::model::texts(ids@),
            f == id_refs(tag as nat, dep(dependent@, kind, label@)),
            indexes(models(buckets@), raw + concat_map(s.subrange(0, k as int), f)),
        decreases ids.len() - k,
    {
        let ghost cur = raw + concat_map(s.subrange(0, k as int), f);
        add_edge(
            buckets,
            entity_with_tag(tag, ids[k].clone()),
            dependent.copy(),
            kind,
            label.clone(),
            Ghost(cur),
        );
        proof {
            lemma_extend(raw, s, f, k as int);
            assert(s[k as int] == ids@[k as int]@);
        }
        k = k + 1;
    }
    proof {
        lemma_concat_map_all(s, f);
    }
}

fn prop_text(name: &String, suffix: &str) -> (r: String)
    ensures
        r@ == prop_label(name@, suffix@),
{
    text3("property `", name.as_str(), suffix)
}

/// Record what a property references: bindings, deriving function,
/// unit.
fn walk_property(
    buckets: &mut Vec<DependencyBucket>,
    owner: &String,
    prop: &PropertyDef,
    Ghost(raw): Ghost<Seq<RefPair>>,
)
    requires
        indexes(models(old(buckets)@), raw),
    ensures
        indexes(models(final(buckets)@), raw + prop_refs(owner@, prop@)),
{
    let ghost bs = prop@.bindings;
    let ghost f = binding_refs_of(owner@, prop@);
    let mut k: usize = 0;
    while k < prop.bindings.len()
        invariant
            k <= prop.bindings.len(),
            bs == prop@.bindings,
            bs.len() == prop.bindings.len(),
            f == binding_refs_of(owner@, prop@),
            indexes(models(buckets@), raw + concat_map(bs.subrange(0, k as int), f)),
        decreases prop.bindings.len() - k,
    {
        let ghost cur = raw + concat_map(bs.subrange(0, k as int), f);
        let named = match &prop.bindings[k] {
            PropertyBinding::ValueSet { id, .. } => Some(
                (SchemaEntityRef::ValueSet { id: id.clone() }, prop_text(&prop.name, "` value-set binding")),
            ),
            PropertyBinding::CodeSystem { id, .. } => Some(
                (SchemaEntityRef::CodeSystem { id: id.clone() }, prop_text(&prop.name, "` code-system binding")),
            ),
            PropertyBinding::NotationPattern { id, .. } => Some(
                (
                    SchemaEntityRef::NotationPattern { id: id.clone() },
                    prop_text(&prop.name, "` notation-pattern binding"),
                ),
            ),
            PropertyBinding::ValueRange { id, .. } => Some(
                (SchemaEntityRef::ValueRangeSet { id: id.clone() }, prop_text(&prop.name, "` value-range binding")),
            ),
            PropertyBinding::Glossary { id, .. } => Some(
                (SchemaEntityRef::GlossaryTerm { id: id.clone() }, prop_text(&prop.name, "` glossary binding")),
            ),
            PropertyBinding::Concept { .. } => None,
        };
        proof {
            lemma_extend(raw, bs, f, k as int);
            assert(bs[k as int] == prop.bindings@[k as int]@);
        }
        match named {
            Some((target, label)) => {
                let dependent = SchemaEntityRef::Property { owner: owner.clone(), id: prop.id.clone() };
                add_edge(buckets, target, dependent, DependencyKind::PropertyBindingRef, label, Ghost(cur));
            },
            None => {
                assert(cur + f(bs[k as int]) =~= cur);
            },
        }
        k = k + 1;
    }
    proof {
        lemma_concat_map_all(bs, f);
    }
    let ghost after_bindings = raw + concat_map(bs, f);
    let ghost d = prop_ent(owner@, prop@.id);
    let ghost derived = match prop@.derived_from {
        Some(fid) => seq![
            (ent(10, fid), dep(d, DependencyKind::FunctionDerivation, prop_label(prop@.name, "` derived_from"@))),
        ],
        None => Seq::<RefPair>::empty(),
    };
    match &prop.derived_from {
        Some(fid) => {
            add_edge(
                buckets,
                SchemaEntityRef::Function { id: fid.clone() },
                SchemaEntityRef::Property { owner: owner.clone(), id: prop.id.clone() },
                DependencyKind::FunctionDerivation,
                prop_text(&prop.name, "` derived_from"),
                Ghost(after_bindings),
            );
        },
        None => {
            assert(after_bindings + derived =~= after_bindings);
        },
    }
    let ghost after_derived = after_bindings + derived;
    let ghost unit = match prop@.unit_id {
        Some(u) => seq![
            (
                EntityModel { tag: 18, first: Seq::empty(), second: u },
                dep(d, DependencyKind::UnitReference, prop_label(prop@.name, "` unit"@)),
            ),
        ],
        None => Seq::<RefPair>::empty(),
    };
    match &prop.unit_id {
        Some(u) => {
            let empty = String::new();
            add_edge(
                buckets,
                SchemaEntityRef::CodedValue { code_system: empty, id: u.clone() },
                SchemaEntityRef::Property { owner: owner.clone(), id: prop.id.clone() },
                DependencyKind::UnitReference,
                prop_text(&prop.name, "` unit"),
                Ghost(after_derived),
            );
        },
        None => {
            assert(after_derived + unit =~= after_derived);
        },
    }
    assert(raw + prop_refs(owner@, prop@) =~= after_derived + unit);
}

/// Record the properties of an owner: each belongs to the owner, then
/// its own references.
fn walk_properties(
    buckets: &mut Vec<DependencyBucket>,
    owner: &String,
    owner_ref: &SchemaEntityRef,
    props: &Vec<PropertyDef>,
    Ghost(raw): Ghost<Seq<RefPair>>,
)
    requires
        indexes(models(old(buckets)@), raw),
    ensures
        indexes(models(final(buckets)@), raw + concat_map(models(props@), owned_prop_refs(owner@, owner_ref@))),
{
    let ghost ps = models(props@);
    let ghost f = owned_prop_refs(owner@, owner_ref@);
    let mut k: usize = 0;
    while k < props.len()
        invariant
            k <= props.len(),
            ps == models(props@),
            f == owned_prop_refs(owner@, owner_ref@),
            indexes(models(buckets@), raw + concat_map(ps.subrange(0, k as int), f)),
        decreases props.len() - k,
    {
        let ghost cur = raw + concat_map(ps.subrange(0, k as int), f);
        let prop = &props[k];
        add_edge(
            buckets,
            owner_ref.copy(),
            SchemaEntityRef::Property { owner: owner.clone(), id: prop.id.clone() },
            DependencyKind::PropertyOf,
            prop_text(&prop.name, "`"),
            Ghost(cur),
        );
        let ghost first = seq![
            (owner_ref@, dep(prop_ent(owner@, prop@.id), DependencyKind::PropertyOf, prop_label(prop@.name, "`"@))),
        ];
        walk_property(buckets, owner, prop, Ghost(cur + first));
        proof {
            lemma_extend(raw, ps, f, k as int);
            assert(ps[k as int] == prop@);
            assert(cur + first + prop_refs(owner@, prop@) =~= cur + f(prop@));
        }
        k = k + 1;
    }
    proof {
        lemma_concat_map_all(ps, f);
    }
}

fn walk_node(buckets: &mut Vec<DependencyBucket>, node: &NodeTypeDef, Ghost(raw): Ghost<Seq<RefPair>>)
    requires
        indexes(models(old(buckets)@), raw),
    ensures
        indexes(models(final(buckets)@), raw + node_refs(node@)),
{
    let n = node;
    let me = SchemaEntityRef::NodeType { id: n.id.clone() };
    let ghost r0 = raw;
    walk_properties(buckets, &n.id, &me, &n.properties, Ghost(r0));
    let ghost r1 = r0 + concat_map(n@.properties, owned_prop_refs(n@.id, me@));
    let l1 = quoted_text("implemented by ", n.label.as_str());
    walk_ids(buckets, &n.implements, 3, &me, DependencyKind::InterfaceImplementation, &l1, Ghost(r1));
    let ghost r2 = r1 + concat_map(n@.implements, id_refs(3, dep(me@, DependencyKind::InterfaceImplementation, l1@)));
    let l2 = quoted_text("attached to ", n.label.as_str());
    walk_ids(buckets, &n.rules, 9, &me, DependencyKind::RuleConstraint, &l2, Ghost(r2));
    let ghost r3 = r2 + concat_map(n@.rules, id_refs(9, dep(me@, DependencyKind::RuleConstraint, l2@)));
    walk_ids(buckets, &n.actions, 12, &me, DependencyKind::ActionTarget, &l2, Ghost(r3));
    let ghost r4 = r3 + concat_map(n@.actions, id_refs(12, dep(me@, DependencyKind::ActionTarget, l2@)));
    let l3 = quoted_text("scoped to ", n.label.as_str());
    walk_ids(buckets, &n.metrics, 11, &me, DependencyKind::MetricScope, &l3, Ghost(r4));
    assert(raw + node_refs(node@) =~= r4 + concat_map(
        n@.metrics,
        id_refs(11, dep(me@, DependencyKind::MetricScope, l3@)),
    ));
}

fn walk_edge(buckets: &mut Vec<DependencyBucket>, edge: &EdgeTypeDef, Ghost(raw): Ghost<Seq<RefPair>>)
    requires
        indexes(models(old(buckets)@), raw),
    ensures
        indexes(models(final(buckets)@), raw + edge_refs(edge@)),
{
    let me = SchemaEntityRef::EdgeType { id: edge.id.clone() };
    add_edge(
        buckets,
        SchemaEntityRef::NodeType { id: edge.source_node_id.clone() },
        me.copy(),
        DependencyKind::EdgeSource,
        quoted_text("source of ", edge.label.as_str()),
        Ghost(raw),
    );
    let ghost r1 = raw + seq![
        (ent(0, edge@.source_node_id), dep(me@, DependencyKind::EdgeSource, quoted("source of "@, edge@.label))),
    ];
    add_edge(
        buckets,
        SchemaEntityRef::NodeType { id: edge.target_node_id.clone() },
        me.copy(),
        DependencyKind::EdgeTarget,
        quoted_text("target of ", edge.label.as_str()),
        Ghost(r1),
    );
    let ghost r2 = r1 + seq![
        (ent(0, edge@.target_node_id), dep(me@, DependencyKind::EdgeTarget, quoted("target of "@, edge@.label))),
    ];
    walk_properties(buckets, &edge.id, &me, &edge.properties, Ghost(r2));
    assert(raw + edge_refs(edge@) =~= r2 + concat_map(edge@.properties, owned_prop_refs(edge@.id, me@)));
}

fn rule_text(id: &String, suffix: &str) -> (r: String)
    ensures
        r@ == rule_label(id@, suffix@),
{
    text3("rule `", id.as_str(), suffix)
}

fn walk_constraint(
    buckets: &mut Vec<DependencyBucket>,
    rule: &RuleDef,
    me: &SchemaEntityRef,
    Ghost(raw): Ghost<Seq<RefPair>>,
)
    requires
        me@ == ent(9, rule@.id),
        indexes(models(old(buckets)@), raw),
    ensures
        indexes(models(final(buckets)@), raw + concat_map(rule@.constraints, constraint_refs(rule@.id))),
{
    let ghost cs = rule@.constraints;
    let ghost f = constraint_refs(rule@.id);
    let mut k: usize = 0;
    while k < rule.constraints.len()
        invariant
            me@ == ent(9, rule@.id),
            k <= rule.constraints.len(),
            cs == rule@.constraints,
            cs.len() == rule.constraints.len(),
            f == constraint_refs(rule@.id),
            indexes(models(buckets@), raw + concat_map(cs.subrange(0, k as int), f)),
        decreases rule.constraints.len() - k,
    {
        let ghost cur = raw + concat_map(cs.subrange(0, k as int), f);
        let c = &rule.constraints[k];
        assert(cs[k as int] == c@);
        let ghost t_refs = match c@.target {
            Some(t) => if t.kind == crate::rule::TargetKind::Property {
                seq![
                    (
                        prop_ent(t.node_type_id, t.property_id),
                        dep(me@, DependencyKind::RuleConstraint, rule_label(rule@.id, "` constraint"@)),
                    ),
                ]
            } else {
                Seq::<RefPair>::empty()
            },
            None => Seq::<RefPair>::empty(),
        };
        match c.target() {
            Some(crate::rule::ConstraintTarget::Property { node_type_id, property_id }) => {
                add_edge(
                    buckets,
                    SchemaEntityRef::Property { owner: node_type_id.clone(), id: property_id.clone() },
                    me.copy(),
                    DependencyKind::RuleConstraint,
                    rule_text(&rule.id, "` constraint"),
                    Ghost(cur),
                );
            },
            _ => {
                assert(cur + t_refs =~= cur);
            },
        }
        let ghost mid = cur + t_refs;
        let ghost v_refs = if c@.kind == crate::rule::ConstraintKind::InValueSet {
            seq![
                (ent(5, c@.reference), dep(me@, DependencyKind::RuleVocabulary, rule_label(rule@.id, "` InValueSet"@))),
            ]
        } else if c@.kind == crate::rule::ConstraintKind::MatchesPattern {
            seq![
                (
                    ent(7, c@.reference),
                    dep(me@, DependencyKind::RuleVocabulary, rule_label(rule@.id, "` MatchesPattern"@)),
                ),
            ]
        } else {
            Seq::<RefPair>::empty()
        };
        match c {
            crate::rule::ShaclConstraint::InValueSet { value_set_id, .. } => {
                add_edge(
                    buckets,
                    SchemaEntityRef::ValueSet { id: value_set_id.clone() },
                    me.copy(),
                    DependencyKind::RuleVocabulary,
                    rule_text(&rule.id, "` InValueSet"),
                    Ghost(mid),
                );
            },
            crate::rule::ShaclConstraint::MatchesPattern { notation_pattern_id, .. } => {
                add_edge(
                    buckets,
                    SchemaEntityRef::NotationPattern { id: notation_pattern_id.clone() },
                    me.copy(),
                    DependencyKind::RuleVocabulary,
                    rule_text(&rule.id, "` MatchesPattern"),
                    Ghost(mid),
                );
            },
            _ => {
                assert(mid + v_refs =~= mid);
            },
        }
        proof {
            lemma_extend(raw, cs, f, k as int);
            assert(mid + v_refs =~= cur + f(c@));
        }
        k = k + 1;
    }
    proof {
        lemma_concat_map_all(cs, f);
    }
}

fn walk_rule(buckets: &mut Vec<DependencyBucket>, rule: &RuleDef, Ghost(raw): Ghost<Seq<RefPair>>)
    requires
        indexes(models(old(buckets)@), raw),
    ensures
        indexes(models(final(buckets)@), raw + rule_refs(rule@)),
{
    let me = SchemaEntityRef::Rule { id: rule.id.clone() };
    match &rule.kind {
        crate::rule::RuleKind::NodeShape { target_node_type_id } => {
            add_edge(
                buckets,
                SchemaEntityRef::NodeType { id: target_node_type_id.clone() },
                me.copy(),
                DependencyKind::RuleConstraint,
                rule_text(&rule.id, "` (NodeShape)"),
                Ghost(raw),
            );
        },
        crate::rule::RuleKind::PropertyShape { target_node_type_id, target_property_id } => {
            add_edge(
                buckets,
                SchemaEntityRef::Property {
                    owner: target_node_type_id.clone(),
                    id: target_property_id.clone(),
                },
                me.copy(),
                DependencyKind::RuleConstraint,
                rule_text(&rule.id, "` (PropertyShape)"),
                Ghost(raw),
            );
        },
        crate::rule::RuleKind::EdgeShape { target_edge_type_id } => {
            add_edge(
                buckets,
                SchemaEntityRef::EdgeType { id: target_edge_type_id.clone() },
                me.copy(),
                DependencyKind::RuleConstraint,
                rule_text(&rule.id, "` (EdgeShape)"),
                Ghost(raw),
            );
        },
        _ => {
            assert(raw + kind_refs(rule@) =~= raw);
        },
    }
    let ghost r1 = raw + kind_refs(rule@);
    walk_constraint(buckets, rule, &me, Ghost(r1));
    let ghost r2 = r1 + concat_map(rule@.constraints, constraint_refs(rule@.id));
    let ghost act = match rule@.activation {
        Some(a) => seq![
            (
                ent(12, a),
                dep(ent(9, rule@.id), DependencyKind::RuleActivation, rule_label(rule@.id, "` activates on action"@)),
            ),
        ],
        None => Seq::<RefPair>::empty(),
    };
    match &rule.activation {
        crate::rule::RuleActivationKind::OnAction { action_id } => {
            add_edge(
                buckets,
                SchemaEntityRef::Action { id: action_id.clone() },
                me.copy(),
                DependencyKind::RuleActivation,
                rule_text(&rule.id, "` activates on action"),
                Ghost(r2),
            );
        },
        _ => {
            assert(r2 + act =~= r2);
        },
    }
    assert(raw + rule_refs(rule@) =~= r2 + act);
}

fn walk_value_set(buckets: &mut Vec<DependencyBucket>, vs: &ValueSetDef, Ghost(raw): Ghost<Seq<RefPair>>)
    requires
        indexes(models(old(buckets)@), raw),
    ensures
        indexes(models(final(buckets)@), raw + vs_refs(vs@)),
{
    let ghost v = vs@;
    let mut k: usize = 0;
    while k < vs.composition.len()
        invariant
            k <= vs.composition.len(),
            v == vs@,
            v.composition.len() == vs.composition.len(),
            indexes(models(buckets@), raw + vs_refs(v).subrange(0, k as int)),
        decreases vs.composition.len() - k,
    {
        let ghost cur = raw + vs_refs(v).subrange(0, k as int);
        let mut label = String::from_str("value set `");
        label.append(vs.name.as_str());
        label.append("` composition rule ");
        let position = decimal_string(k as u64);
        label.append(position.as_str());
        proof {
            assert(v.composition[k as int] == vs.composition@[k as int]@);
        }
        add_edge(
            buckets,
            SchemaEntityRef::CodeSystem { id: vs.composition[k].system_id.clone() },
            SchemaEntityRef::ValueSet { id: vs.id.clone() },
            DependencyKind::ValueSetComposition,
            label,
            Ghost(cur),
        );
        proof {
            assert(vs_refs(v).subrange(0, k + 1) =~= vs_refs(v).subrange(0, k as int).push(vs_rule_ref(v, k as int)));
            assert(cur + seq![vs_rule_ref(v, k as int)] =~= raw + vs_refs(v).subrange(0, k + 1));
        }
        k = k + 1;
    }
    assert(vs_refs(v).subrange(0, k as int) =~= vs_refs(v));
}

fn walk_concept_map(buckets: &mut Vec<DependencyBucket>, cm: &ConceptMapDef, Ghost(raw): Ghost<Seq<RefPair>>)
    requires
        indexes(models(old(buckets)@), raw),
    ensures
        indexes(models(final(buckets)@), raw + cm_refs(cm@)),
{
    let ghost c = cm@;
    add_edge(
        buckets,
        SchemaEntityRef::CodeSystem { id: cm.source_system_id.clone() },
        SchemaEntityRef::ConceptMap { id: cm.id.clone() },
        DependencyKind::ConceptMapEndpoint,
        text3("concept map `", cm.name.as_str(), "` source"),
        Ghost(raw),
    );
    let ghost r1 = raw + seq![cm_refs(c)[0]];
    add_edge(
        buckets,
        SchemaEntityRef::CodeSystem { id: cm.target_system_id.clone() },
        SchemaEntityRef::ConceptMap { id: cm.id.clone() },
        DependencyKind::ConceptMapEndpoint,
        text3("concept map `", cm.name.as_str(), "` target"),
        Ghost(r1),
    );
    assert(r1 + seq![cm_refs(c)[1]] =~= raw + cm_refs(c));
}

fn walk_object_mapping(
    buckets: &mut Vec<DependencyBucket>,
    om: &ObjectMappingDef,
    Ghost(raw): Ghost<Seq<RefPair>>,
)
    requires
        indexes(models(old(buckets)@), raw),
    ensures
        indexes(models(final(buckets)@), raw + om_refs(om@)),
{
    let me = SchemaEntityRef::ObjectMapping { id: om.id.clone() };
    add_edge(
        buckets,
        SchemaEntityRef::NodeType { id: om.node_type_id.clone() },
        me.copy(),
        DependencyKind::ObjectMappingTarget,
        quoted_text("mapped to relation ", om.relation.as_str()),
        Ghost(raw),
    );
    let ghost r1 = raw + seq![
        (
            ent(0, om@.node_type_id),
            dep(me@, DependencyKind::ObjectMappingTarget, quoted("mapped to relation "@, om@.relation)),
        ),
    ];
    let ghost pms = om@.property_mappings;
    let ghost f = pm_refs(om@);
    let mut k: usize = 0;
    while k < om.property_mappings.len()
        invariant
            me@ == ent(14, om@.id),
            k <= om.property_mappings.len(),
            pms == om@.property_mappings,
            pms.len() == om.property_mappings.len(),
            f == pm_refs(om@),
            indexes(models(buckets@), r1 + concat_map(pms.subrange(0, k as int), f)),
        decreases om.property_mappings.len() - k,
    {
        let ghost cur = r1 + concat_map(pms.subrange(0, k as int), f);
        add_edge(
            buckets,
            SchemaEntityRef::Property {
                owner: om.node_type_id.clone(),
                id: om.property_mappings[k].property_id.clone(),
            },
            me.copy(),
            DependencyKind::PropertyMappingTarget,
            String::from_str("object-mapping property binding"),
            Ghost(cur),
        );
        proof {
            lemma_extend(r1, pms, f, k as int);
            assert(pms[k as int] == om.property_mappings@[k as int]@);
        }
        k = k + 1;
    }
    proof {
        lemma_concat_map_all(pms, f);
        assert(raw + om_refs(om@) =~= r1 + concat_map(pms, f));
    }
}

fn link_mapping_label(kind: &LinkMappingKind) -> (r: String)
    ensures
        r@ == link_label(kind@),
{
    match kind {
        LinkMappingKind::ForeignKey => String::from_str("foreign-key link"),
        LinkMappingKind::Bridge => String::from_str("bridge-relation link"),
        LinkMappingKind::Computed { .. } => String::from_str("computed link"),
        LinkMappingKind::Federated => String::from_str("federated link"),
    }
}

/// The inverted index: one bucket per referenced entity, sorted by
/// entity, each bucket's edges sorted.
#[derive(Debug, Clone, PartialEq, Eq, Default)]
pub struct SchemaDependencyGraph {
    pub buckets: Vec<DependencyBucket>,
}

/// The bucket of `t`, if any.
pub open spec fn has_target(t: EntityModel) -> spec_fn(BucketModel) -> bool {
    |b: BucketModel| b.target == t
}

/// The edges recorded for `t` in a list of buckets.
pub open spec fn edges_for(bs: Seq<BucketModel>, t: EntityModel) -> Seq<EdgeRefModel> {
    match crate::model::first_match(bs, has_target(t)) {
        Some(i) => bs[i].edges,
        None => Seq::empty(),
    }
}

impl SchemaDependencyGraph {
    /// Walk every reference of the ontology and build the inverted
    /// index: node types (their properties with bindings, deriving
    /// functions and units; interfaces; attached rules, actions and
    /// metrics), edge types, rules, object mappings, link mappings,
    /// value sets (one reference per composition rule), concept maps
    /// (their source and target code systems), enrichments (the node type
    /// they fill) and actions (the rules they check).
    pub fn build(ontology: &OntologyIR) -> (r: SchemaDependencyGraph)
        ensures
            indexes(models(r.buckets@), all_refs(ontology@)),
    {
        let mut buckets: Vec<DependencyBucket> = Vec::new();
        let ghost m = ontology@;
        proof {
            assert(models(buckets@) =~= Seq::<BucketModel>::empty());
            assert(Seq::<RefPair>::empty().to_multiset() =~= vstd::multiset::Multiset::empty());
        }
        let ghost r0 = Seq::<RefPair>::empty();
        let mut i: usize = 0;
        while i < ontology.node_types.len()
            invariant
                i <= ontology.node_types.len(),
                m == ontology@,
                indexes(models(buckets@), r0 + concat_map(m.node_types.subrange(0, i as int), node_refs_fn())),
            decreases ontology.node_types.len() - i,
        {
            let ghost cur = r0 + concat_map(m.node_types.subrange(0, i as int), node_refs_fn());
            walk_node(&mut buckets, &ontology.node_types[i], Ghost(cur));
            proof {
                lemma_extend(r0, m.node_types, node_refs_fn(), i as int);
                assert(m.node_types[i as int] == ontology.node_types@[i as int]@);
            }
            i = i + 1;
        }
        proof {
            lemma_concat_map_all(m.node_types, node_refs_fn());
        }
        let ghost r1 = r0 + concat_map(m.node_types, node_refs_fn());
        let mut i: usize = 0;
        while i < ontology.edge_types.len()
            invariant
                i <= ontology.edge_types.len(),
                m == ontology@,
                indexes(models(buckets@), r1 + concat_map(m.edge_types.subrange(0, i as int), edge_refs_fn())),
            decreases ontology.edge_types.len() - i,
        {
            let ghost cur = r1 + concat_map(m.edge_types.subrange(0, i as int), edge_refs_fn());
            walk_edge(&mut buckets, &ontology.edge_types[i], Ghost(cur));
            proof {
                lemma_extend(r1, m.edge_types, edge_refs_fn(), i as int);
                assert(m.edge_types[i as int] == ontology.edge_types@[i as int]@);
            }
            i = i + 1;
        }
        proof {
            lemma_concat_map_all(m.edge_types, edge_refs_fn());
        }
        let ghost r2 = r1 + concat_map(m.edge_types, edge_refs_fn());
        let mut i: usize = 0;
        while i < ontology.rules.len()
            invariant
                i <= ontology.rules.len(),
                m == ontology@,
                indexes(models(buckets@), r2 + concat_map(m.rules.subrange(0, i as int), rule_refs_fn())),
            decreases ontology.rules.len() - i,
        {
            let ghost cur = r2 + concat_map(m.rules.subrange(0, i as int), rule_refs_fn());
            walk_rule(&mut buckets, &ontology.rules[i], Ghost(cur));
            proof {
                lemma_extend(r2, m.rules, rule_refs_fn(), i as int);
                assert(m.rules[i as int] == ontology.rules@[i as int]@);
            }
            i = i + 1;
        }
        proof {
            lemma_concat_map_all(m.rules, rule_refs_fn());
        }
        let ghost r3 = r2 + concat_map(m.rules, rule_refs_fn());
        let mut i: usize = 0;
        while i < ontology.object_mappings.len()
            invariant
                i <= ontology.object_mappings.len(),
                m == ontology@,
                indexes(models(buckets@), r3 + concat_map(m.object_mappings.subrange(0, i as int), om_refs_fn())),
            decreases ontology.object_mappings.len() - i,
        {
            let ghost cur = r3 + concat_map(m.object_mappings.subrange(0, i as int), om_refs_fn());
            walk_object_mapping(&mut buckets, &ontology.object_mappings[i], Ghost(cur));
            proof {
                lemma_extend(r3, m.object_mappings, om_refs_fn(), i as int);
                assert(m.object_mappings[i as int] == ontology.object_mappings@[i as int]@);
            }
            i = i + 1;
        }
        proof {
            lemma_concat_map_all(m.object_mappings, om_refs_fn());
        }
        let ghost r4 = r3 + concat_map(m.object_mappings, om_refs_fn());
        let mut i: usize = 0;
        while i < ontology.link_mappings.len()
            invariant
                i <= ontology.link_mappings.len(),
                m == ontology@,
                indexes(models(buckets@), r4 + concat_map(m.link_mappings.subrange(0, i as int), lm_refs_fn())),
            decreases ontology.link_mappings.len() - i,
        {
            let ghost cur = r4 + concat_map(m.link_mappings.subrange(0, i as int), lm_refs_fn());
            let lm = &ontology.link_mappings[i];
            add_edge(
                &mut buckets,
                SchemaEntityRef::EdgeType { id: lm.edge_type_id.clone() },
                SchemaEntityRef::LinkMapping { id: lm.id.clone() },
                DependencyKind::LinkMappingTarget,
                link_mapping_label(&lm.kind),
                Ghost(cur),
            );
            proof {
                lemma_extend(r4, m.link_mappings, lm_refs_fn(), i as int);
                assert(m.link_mappings[i as int] == lm@);
            }
            i = i + 1;
        }
        proof {
            lemma_concat_map_all(m.link_mappings, lm_refs_fn());
        }
        let ghost r5 = r4 + concat_map(m.link_mappings, lm_refs_fn());
        let value_sets = &ontology.registries.value_sets;
        let mut i: usize = 0;
        while i < value_sets.len()
            invariant
                i <= value_sets.len(),
                m == ontology@,
                m.registries.value_sets == models(value_sets@),
                indexes(models(buckets@), r5 + concat_map(m.registries.value_sets.subrange(0, i as int), vs_refs_fn())),
            decreases value_sets.len() - i,
        {
            let ghost cur = r5 + concat_map(m.registries.value_sets.subrange(0, i as int), vs_refs_fn());
            walk_value_set(&mut buckets, &value_sets[i], Ghost(cur));
            proof {
                lemma_extend(r5, m.registries.value_sets, vs_refs_fn(), i as int);
                assert(m.registries.value_sets[i as int] == value_sets@[i as int]@);
            }
            i = i + 1;
        }
        proof {
            lemma_concat_map_all(m.registries.value_sets, vs_refs_fn());
        }
        let ghost r6 = r5 + concat_map(m.registries.value_sets, vs_refs_fn());
        let concept_maps = &ontology.registries.concept_maps;
        let mut i: usize = 0;
        while i < concept_maps.len()
            invariant
                i <= concept_maps.len(),
                m == ontology@,
                m.registries.concept_maps == models(concept_maps@),
                indexes(models(buckets@), r6 + concat_map(m.registries.concept_maps.subrange(0, i as int), cm_refs_fn())),
            decreases concept_maps.len() - i,
        {
            let ghost cur = r6 + concat_map(m.registries.concept_maps.subrange(0, i as int), cm_refs_fn());
            walk_concept_map(&mut buckets, &concept_maps[i], Ghost(cur));
            proof {
                lemma_extend(r6, m.registries.concept_maps, cm_refs_fn(), i as int);
                assert(m.registries.concept_maps[i as int] == concept_maps@[i as int]@);
            }
            i = i + 1;
        }
        proof {
            lemma_concat_map_all(m.registries.concept_maps, cm_refs_fn());
        }
        let ghost r7 = r6 + concat_map(m.registries.concept_maps, cm_refs_fn());
        let mut i: usize = 0;
        while i < ontology.enrichments.len()
            invariant
                i <= ontology.enrichments.len(),
                m == ontology@,
                indexes(models(buckets@), r7 + concat_map(m.enrichments.subrange(0, i as int), en_refs_fn())),
            decreases ontology.enrichments.len() - i,
        {
            let ghost cur = r7 + concat_map(m.enrichments.subrange(0, i as int), en_refs_fn());
            let enr = &ontology.enrichments[i];
            add_edge(
                &mut buckets,
                SchemaEntityRef::NodeType { id: enr.target_node_type_id.clone() },
                SchemaEntityRef::Enrichment { id: enr.id.clone() },
                DependencyKind::EnrichmentTarget,
                text3("enrichment `", enr.name.as_str(), "`"),
                Ghost(cur),
            );
            proof {
                lemma_extend(r7, m.enrichments, en_refs_fn(), i as int);
                assert(m.enrichments[i as int] == enr@);
            }
            i = i + 1;
        }
        proof {
            lemma_concat_map_all(m.enrichments, en_refs_fn());
        }
        let ghost r8 = r7 + concat_map(m.enrichments, en_refs_fn());
        let mut i: usize = 0;
        while i < ontology.actions.len()
            invariant
                i <= ontology.actions.len(),
                m == ontology@,
                indexes(models(buckets@), r8 + concat_map(m.actions.subrange(0, i as int), act_refs_fn())),
            decreases ontology.actions.len() - i,
        {
            let ghost cur = r8 + concat_map(m.actions.subrange(0, i as int), act_refs_fn());
            let action = &ontology.actions[i];
            proof {
                assert(m.actions[i as int] == action@);
            }
            let me = SchemaEntityRef::Action { id: action.id.clone() };
            let label = text3("action `", action.name.as_str(), "` references rule");
            walk_ids(&mut buckets, &action.preconditions, 9, &me, DependencyKind::ActionRule, &label, Ghost(cur));
            let ghost mid = cur + concat_map(action@.preconditions, id_refs(9, action_edge(action@)));
            walk_ids(&mut buckets, &action.postconditions, 9, &me, DependencyKind::ActionRule, &label, Ghost(mid));
            proof {
                lemma_extend(r8, m.actions, act_refs_fn(), i as int);
                assert(mid + concat_map(action@.postconditions, id_refs(9, action_edge(action@))) =~= cur + act_refs(
                    action@,
                ));
            }
            i = i + 1;
        }
        proof {
            lemma_concat_map_all(m.actions, act_refs_fn());
            assert(r8 + concat_map(m.actions, act_refs_fn()) =~= all_refs(m));
        }
        SchemaDependencyGraph { buckets }
    }

    /// The edges recorded for `target` (empty when nothing references it).
    pub fn dependents_of(&self, target: &SchemaEntityRef) -> (r: Vec<DependencyEdge>)
        ensures
            models(r@) == edges_for(models(self.buckets@), target@),
    {
        let ghost bs = models(self.buckets@);
        let ghost p = has_target(target@);
        let mut i: usize = 0;
        while i < self.buckets.len()
            invariant
                i <= self.buckets.len(),
                bs == models(self.buckets@),
                p == has_target(target@),
                forall|k: int| 0 <= k < i ==> !p(#[trigger] bs[k]),
            decreases self.buckets.len() - i,
        {
            assert(bs[i as int] == self.buckets@[i as int]@);
            if entity_precedence(&self.buckets[i].target, target) == Precedence::Same {
                proof {
                    crate::model::lemma_first_match_scan(bs, p, i as int);
                }
                let mut out: Vec<DependencyEdge> = Vec::new();
                let es = &self.buckets[i].edges;
                let mut k: usize = 0;
                while k < es.len()
                    invariant
                        k <= es.len(),
                        models(out@) == models(es@).subrange(0, k as int),
                    decreases es.len() - k,
                {
                    let e = &es[k];
                    let c = DependencyEdge { dependent: e.dependent.copy(), kind: e.kind, label: e.label.clone() };
                    assert(c@ == e@);
                    let ghost before = out@;
                    out.push(c);
                    assert(models(out@) =~= models(before).push(e@));
                    assert(models(es@)[k as int] == e@);
                    assert(models(out@) =~= models(es@).subrange(0, k + 1));
                    k = k + 1;
                }
                assert(models(es@).subrange(0, es.len() as int) =~= models(es@));
                return out;
            }
            i = i + 1;
        }
        proof {
            crate::model::lemma_first_match_scan(bs, p, i as int);
        }
        let out: Vec<DependencyEdge> = Vec::new();
        assert(models(out@) =~= Seq::<EdgeRefModel>::empty());
        out
    }

    /// Number of recorded edges over all targets.
    pub fn edge_count(&self) -> (r: usize)
        requires
            total_edges(models(self.buckets@)) <= usize::MAX,
        ensures
            r == total_edges(models(self.buckets@)),
    {
        let ghost bs = models(self.buckets@);
        let mut n: usize = 0;
        let mut i: usize = 0;
        while i < self.buckets.len()
            invariant
                i <= self.buckets.len(),
                bs == models(self.buckets@),
                total_edges(bs) <= usize::MAX,
                n == total_edges(bs.subrange(0, i as int)),
            decreases self.buckets.len() - i,
        {
            proof {
                let next = bs.subrange(0, i + 1);
                assert(next.subrange(0, i as int) =~= bs.subrange(0, i as int));
                lemma_total_prefix(bs, i + 1);
                assert(bs[i as int] == self.buckets@[i as int]@);
            }
            n = n + self.buckets[i].edges.len();
            i = i + 1;
        }
        assert(bs.subrange(0, bs.len() as int) =~= bs);
        n
    }
}

proof fn lemma_total_prefix(bs: Seq<BucketModel>, k: int)
    requires
        0 <= k <= bs.len(),
    ensures
        total_edges(bs.subrange(0, k)) <= total_edges(bs),
    decreases bs.len(),
{
    if k < bs.len() {
        let init = bs.subrange(0, bs.len() - 1);
        assert(init.subrange(0, k) =~= bs.subrange(0, k));
        lemma_total_prefix(init, k);
    } else {
        assert(bs.subrange(0, k) =~= bs);
    }
}

/// In an index of the references `raw`, the edges recorded for a
/// target are exactly the references to it: each edge occurs as often
/// as the reference was recorded, and the index holds as many edges as
/// there were references.
pub proof fn lemma_index_answers(bs: Seq<BucketModel>, raw: Seq<RefPair>, t: EntityModel, e: EdgeRefModel)
    requires
        indexes(bs, raw),
    ensures
        edges_for(bs, t).to_multiset().count(e) == raw.to_multiset().count((t, e)),
        total_edges(bs) == raw.len(),
{
    crate::model::lemma_first_match_props(bs, has_target(t));
    match crate::model::first_match(bs, has_target(t)) {
        Some(i) => {
            assert(bs[i].edges.to_multiset().count(e) == raw.to_multiset().count((bs[i].target, e)));
        },
        None => {
            assert(Seq::<EdgeRefModel>::empty().to_multiset() =~= vstd::multiset::Multiset::empty());
            if raw.to_multiset().count((t, e)) > 0 {
                let k = choose|k: int| 0 <= k < bs.len() && (#[trigger] bs[k]).target == (t, e).0;
                assert(has_target(t)(bs[k]));
            }
        },
    }
}

proof fn lemma_in_left(a: Seq<RefPair>, b: Seq<RefPair>, x: RefPair)
    requires
        a.contains(x),
    ensures
        (a + b).contains(x),
{
    let j = choose|j: int| 0 <= j < a.len() && a[j] == x;
    assert((a + b)[j] == x);
}

proof fn lemma_in_right(a: Seq<RefPair>, b: Seq<RefPair>, x: RefPair)
    requires
        b.contains(x),
    ensures
        (a + b).contains(x),
{
    let j = choose|j: int| 0 <= j < b.len() && b[j] == x;
    assert((a + b)[a.len() + j] == x);
}

proof fn lemma_concat_map_contains<A>(s: Seq<A>, f: spec_fn(A) -> Seq<RefPair>, k: int, x: RefPair)
    requires
        0 <= k < s.len(),
        f(s[k]).contains(x),
    ensures
        concat_map(s, f).contains(x),
    decreases s.len(),
{
    let init = s.subrange(0, s.len() - 1);
    if k < s.len() - 1 {
        assert(init[k] == s[k]);
        lemma_concat_map_contains(init, f, k, x);
        lemma_in_left(concat_map(init, f), f(s[s.len() - 1]), x);
    } else {
        lemma_in_right(concat_map(init, f), f(s[k]), x);
    }
}

/// What the index holds under a target is what the references hold.
proof fn lemma_index_has(bs: Seq<BucketModel>, raw: Seq<RefPair>, x: RefPair)
    requires
        indexes(bs, raw),
        raw.contains(x),
    ensures
        edges_for(bs, x.0).contains(x.1),
{
    broadcast use vstd::seq_lib::to_multiset_contains;
    lemma_index_answers(bs, raw, x.0, x.1);
    assert(raw.to_multiset().count(x) > 0);
    assert(raw.to_multiset().count((x.0, x.1)) > 0);
    assert(edges_for(bs, x.0).to_multiset().count(x.1) > 0);
}

/// The index records each property of a node type under that node type.
pub proof fn lemma_index_records_property(m: OntologyModel, bs: Seq<BucketModel>, i: int, j: int)
    requires
        indexes(bs, all_refs(m)),
        0 <= i < m.node_types.len(),
        0 <= j < m.node_types[i].properties.len(),
    ensures
        edges_for(bs, ent(0, m.node_types[i].id)).contains(
            dep(
                prop_ent(m.node_types[i].id, m.node_types[i].properties[j].id),
                DependencyKind::PropertyOf,
                prop_label(m.node_types[i].properties[j].name, "`"@),
            ),
        ),
{
    let n = m.node_types[i];
    let p = n.properties[j];
    let me = ent(0, n.id);
    let x = (me, dep(prop_ent(n.id, p.id), DependencyKind::PropertyOf, prop_label(p.name, "`"@)));
    let f = owned_prop_refs(n.id, me);
    assert(f(p)[0] == x);
    lemma_concat_map_contains(n.properties, f, j, x);
    let a = concat_map(n.properties, f);
    let b = concat_map(n.implements, id_refs(3, dep(me, DependencyKind::InterfaceImplementation, quoted("implemented by "@, n.label))));
    let c = concat_map(n.rules, id_refs(9, dep(me, DependencyKind::RuleConstraint, quoted("attached to "@, n.label))));
    let d = concat_map(n.actions, id_refs(12, dep(me, DependencyKind::ActionTarget, quoted("attached to "@, n.label))));
    let e = concat_map(n.metrics, id_refs(11, dep(me, DependencyKind::MetricScope, quoted("scoped to "@, n.label))));
    lemma_in_left(a, b, x);
    lemma_in_left(a + b, c, x);
    lemma_in_left(a + b + c, d, x);
    lemma_in_left(a + b + c + d, e, x);
    assert(node_refs_fn()(n) == a + b + c + d + e);
    lemma_concat_map_contains(m.node_types, node_refs_fn(), i, x);
    lemma_all_refs_from_nodes(m, x);
    lemma_index_has(bs, all_refs(m), x);
}

proof fn lemma_all_refs_from_nodes(m: OntologyModel, x: RefPair)
    requires
        concat_map(m.node_types, node_refs_fn()).contains(x),
    ensures
        all_refs(m).contains(x),
{
    let a = concat_map(m.node_types, node_refs_fn());
    let b = concat_map(m.edge_types, edge_refs_fn());
    let c = concat_map(m.rules, rule_refs_fn());
    let d = concat_map(m.object_mappings, om_refs_fn());
    let e = concat_map(m.link_mappings, lm_refs_fn());
    let f = concat_map(m.registries.value_sets, vs_refs_fn());
    let g = concat_map(m.registries.concept_maps, cm_refs_fn());
    let h = concat_map(m.enrichments, en_refs_fn());
    let k = concat_map(m.actions, act_refs_fn());
    lemma_in_left(a, b, x);
    lemma_in_left(a + b, c, x);
    lemma_in_left(a + b + c, d, x);
    lemma_in_left(a + b + c + d, e, x);
    lemma_in_left(a + b + c + d + e, f, x);
    lemma_in_left(a + b + c + d + e + f, g, x);
    lemma_in_left(a + b + c + d + e + f + g, h, x);
    lemma_in_left(a + b + c + d + e + f + g + h, k, x);
}

/// The index records both endpoints of each edge type under the endpoint
/// node types.
pub proof fn lemma_index_records_endpoints(m: OntologyModel, bs: Seq<BucketModel>, i: int)
    requires
        indexes(bs, all_refs(m)),
        0 <= i < m.edge_types.len(),
    ensures
        edges_for(bs, ent(0, m.edge_types[i].source_node_id)).contains(
            dep(ent(1, m.edge_types[i].id), DependencyKind::EdgeSource, quoted("source of "@, m.edge_types[i].label)),
        ),
        edges_for(bs, ent(0, m.edge_types[i].target_node_id)).contains(
            dep(ent(1, m.edge_types[i].id), DependencyKind::EdgeTarget, quoted("target of "@, m.edge_types[i].label)),
        ),
{
    let e = m.edge_types[i];
    let r = edge_refs(e);
    assert(r.contains(r[0]));
    assert(r.contains(r[1]));
    lemma_edge_ref_in_all(m, i, r[0]);
    lemma_edge_ref_in_all(m, i, r[1]);
    lemma_index_has(bs, all_refs(m), r[0]);
    lemma_index_has(bs, all_refs(m), r[1]);
}

proof fn lemma_edge_ref_in_all(m: OntologyModel, i: int, x: RefPair)
    requires
        0 <= i < m.edge_types.len(),
        edge_refs(m.edge_types[i]).contains(x),
    ensures
        all_refs(m).contains(x),
{
    assert(edge_refs_fn()(m.edge_types[i]) == edge_refs(m.edge_types[i]));
    let a = concat_map(m.node_types, node_refs_fn());
    let b = concat_map(m.edge_types, edge_refs_fn());
    let c = concat_map(m.rules, rule_refs_fn());
    let d = concat_map(m.object_mappings, om_refs_fn());
    let l = concat_map(m.link_mappings, lm_refs_fn());
    let f = concat_map(m.registries.value_sets, vs_refs_fn());
    let g = concat_map(m.registries.concept_maps, cm_refs_fn());
    lemma_concat_map_contains(m.edge_types, edge_refs_fn(), i, x);
    lemma_in_right(a, b, x);
    lemma_in_left(a + b, c, x);
    lemma_in_left(a + b + c, d, x);
    lemma_in_left(a + b + c + d, l, x);
    lemma_in_left(a + b + c + d + l, f, x);
    lemma_in_left(a + b + c + d + l + f, g, x);
    let h = concat_map(m.enrichments, en_refs_fn());
    let k = concat_map(m.actions, act_refs_fn());
    lemma_in_left(a + b + c + d + l + f + g, h, x);
    lemma_in_left(a + b + c + d + l + f + g + h, k, x);
}

/// The index records each composition rule of a value set under the
/// rule's code system.
pub proof fn lemma_index_records_value_set_rule(m: OntologyModel, bs: Seq<BucketModel>, v: int, k: int)
    requires
        indexes(bs, all_refs(m)),
        0 <= v < m.registries.value_sets.len(),
        0 <= k < m.registries.value_sets[v].composition.len(),
    ensures
        edges_for(bs, ent(6, m.registries.value_sets[v].composition[k].system_id)).contains(
            vs_rule_ref(m.registries.value_sets[v], k).1,
        ),
{
    let vs = m.registries.value_sets[v];
    let x = vs_rule_ref(vs, k);
    assert(vs_refs_fn()(vs)[k] == x);
    lemma_concat_map_contains(m.registries.value_sets, vs_refs_fn(), v, x);
    let a = concat_map(m.node_types, node_refs_fn()) + concat_map(m.edge_types, edge_refs_fn()) + concat_map(
        m.rules,
        rule_refs_fn(),
    ) + concat_map(m.object_mappings, om_refs_fn()) + concat_map(m.link_mappings, lm_refs_fn());
    let f = concat_map(m.registries.value_sets, vs_refs_fn());
    let g = concat_map(m.registries.concept_maps, cm_refs_fn());
    lemma_in_right(a, f, x);
    lemma_in_left(a + f, g, x);
    let h = concat_map(m.enrichments, en_refs_fn());
    let k = concat_map(m.actions, act_refs_fn());
    lemma_in_left(a + f + g, h, x);
    lemma_in_left(a + f + g + h, k, x);
    lemma_index_has(bs, all_refs(m), x);
}

/// The index records the source and target code systems of each
/// concept map.
pub proof fn lemma_index_records_concept_map(m: OntologyModel, bs: Seq<BucketModel>, c: int)
    requires
        indexes(bs, all_refs(m)),
        0 <= c < m.registries.concept_maps.len(),
    ensures
        edges_for(bs, ent(6, m.registries.concept_maps[c].source_system_id)).contains(
            cm_refs(m.registries.concept_maps[c])[0].1,
        ),
        edges_for(bs, ent(6, m.registries.concept_maps[c].target_system_id)).contains(
            cm_refs(m.registries.concept_maps[c])[1].1,
        ),
{
    let cm = m.registries.concept_maps[c];
    let r = cm_refs(cm);
    assert(cm_refs_fn()(cm) == r);
    let a = concat_map(m.node_types, node_refs_fn()) + concat_map(m.edge_types, edge_refs_fn()) + concat_map(
        m.rules,
        rule_refs_fn(),
    ) + concat_map(m.object_mappings, om_refs_fn()) + concat_map(m.link_mappings, lm_refs_fn()) + concat_map(
        m.registries.value_sets,
        vs_refs_fn(),
    );
    let g = concat_map(m.registries.concept_maps, cm_refs_fn());
    assert(r.contains(r[0]));
    assert(r.contains(r[1]));
    lemma_concat_map_contains(m.registries.concept_maps, cm_refs_fn(), c, r[0]);
    lemma_concat_map_contains(m.registries.concept_maps, cm_refs_fn(), c, r[1]);
    lemma_in_right(a, g, r[0]);
    lemma_in_right(a, g, r[1]);
    let h = concat_map(m.enrichments, en_refs_fn());
    let k = concat_map(m.actions, act_refs_fn());
    lemma_in_left(a + g, h, r[0]);
    lemma_in_left(a + g, h, r[1]);
    lemma_in_left(a + g + h, k, r[0]);
    lemma_in_left(a + g + h, k, r[1]);
    lemma_index_has(bs, all_refs(m), r[0]);
    lemma_index_has(bs, all_refs(m), r[1]);
}

/// A reference of a rule's constraint is among the ontology's references.
proof fn lemma_constraint_ref_in_all(m: OntologyModel, i: int, j: int, x: RefPair)
    requires
        0 <= i < m.rules.len(),
        0 <= j < m.rules[i].constraints.len(),
        constraint_refs(m.rules[i].id)(m.rules[i].constraints[j]).contains(x),
    ensures
        all_refs(m).contains(x),
{
    let r = m.rules[i];
    let cm = concat_map(r.constraints, constraint_refs(r.id));
    lemma_concat_map_contains(r.constraints, constraint_refs(r.id), j, x);
    let act = match r.activation {
        Some(a) => seq![
            (
                ent(12, a),
                dep(ent(9, r.id), DependencyKind::RuleActivation, rule_label(r.id, "` activates on action"@)),
            ),
        ],
        None => Seq::<RefPair>::empty(),
    };
    lemma_in_right(kind_refs(r), cm, x);
    lemma_in_left(kind_refs(r) + cm, act, x);
    assert(rule_refs_fn()(r) == kind_refs(r) + cm + act);
    lemma_concat_map_contains(m.rules, rule_refs_fn(), i, x);
    let a = concat_map(m.node_types, node_refs_fn());
    let b = concat_map(m.edge_types, edge_refs_fn());
    let c = concat_map(m.rules, rule_refs_fn());
    let d = concat_map(m.object_mappings, om_refs_fn());
    let l = concat_map(m.link_mappings, lm_refs_fn());
    let f = concat_map(m.registries.value_sets, vs_refs_fn());
    let g = concat_map(m.registries.concept_maps, cm_refs_fn());
    let h = concat_map(m.enrichments, en_refs_fn());
    let k = concat_map(m.actions, act_refs_fn());
    lemma_in_right(a + b, c, x);
    lemma_in_left(a + b + c, d, x);
    lemma_in_left(a + b + c + d, l, x);
    lemma_in_left(a + b + c + d + l, f, x);
    lemma_in_left(a + b + c + d + l + f, g, x);
    lemma_in_left(a + b + c + d + l + f + g, h, x);
    lemma_in_left(a + b + c + d + l + f + g + h, k, x);
}

/// The index records what each constraint of a rule depends on: a
/// `MatchesPattern` constraint makes the rule a vocabulary dependent of
/// its notation pattern, an `InValueSet` constraint of its value set, and
/// a constraint aimed at a property makes the rule a constraint dependent
/// of that property; so `dependents_of` on the pattern, the value set or
/// the property lists the rule.
pub proof fn lemma_index_records_rule_constraint(m: OntologyModel, bs: Seq<BucketModel>, i: int, j: int)
    requires
        indexes(bs, all_refs(m)),
        0 <= i < m.rules.len(),
        0 <= j < m.rules[i].constraints.len(),
    ensures
        m.rules[i].constraints[j].kind == crate::rule::ConstraintKind::MatchesPattern ==> edges_for(
            bs,
            ent(7, m.rules[i].constraints[j].reference),
        ).contains(
            dep(
                ent(9, m.rules[i].id),
                DependencyKind::RuleVocabulary,
                "rule `"@ + m.rules[i].id + "` MatchesPattern"@,
            ),
        ),
        m.rules[i].constraints[j].kind == crate::rule::ConstraintKind::InValueSet ==> edges_for(
            bs,
            ent(5, m.rules[i].constraints[j].reference),
        ).contains(
            dep(ent(9, m.rules[i].id), DependencyKind::RuleVocabulary, "rule `"@ + m.rules[i].id + "` InValueSet"@),
        ),
        m.rules[i].constraints[j].target matches Some(t) ==> (t.kind == crate::rule::TargetKind::Property
            ==> edges_for(bs, prop_ent(t.node_type_id, t.property_id)).contains(
            dep(ent(9, m.rules[i].id), DependencyKind::RuleConstraint, "rule `"@ + m.rules[i].id + "` constraint"@),
        )),
{
    let r = m.rules[i];
    let c = r.constraints[j];
    let refs = constraint_refs(r.id)(c);
    let me = ent(9, r.id);
    let target_refs = match c.target {
        Some(t) => if t.kind == crate::rule::TargetKind::Property {
            seq![
                (
                    prop_ent(t.node_type_id, t.property_id),
                    dep(me, DependencyKind::RuleConstraint, rule_label(r.id, "` constraint"@)),
                ),
            ]
        } else {
            Seq::<RefPair>::empty()
        },
        None => Seq::<RefPair>::empty(),
    };
    let n = target_refs.len() as int;
    if c.kind == crate::rule::ConstraintKind::MatchesPattern {
        let x = (ent(7, c.reference), dep(me, DependencyKind::RuleVocabulary, rule_label(r.id, "` MatchesPattern"@)));
        assert(refs[n] == x);
        assert(refs.contains(x));
        lemma_constraint_ref_in_all(m, i, j, x);
        lemma_index_has(bs, all_refs(m), x);
    }
    if c.kind == crate::rule::ConstraintKind::InValueSet {
        let x = (ent(5, c.reference), dep(me, DependencyKind::RuleVocabulary, rule_label(r.id, "` InValueSet"@)));
        assert(refs[n] == x);
        assert(refs.contains(x));
        lemma_constraint_ref_in_all(m, i, j, x);
        lemma_index_has(bs, all_refs(m), x);
    }
    if c.target matches Some(t) && t.kind == crate::rule::TargetKind::Property {
        let x = target_refs[0];
        assert(refs[0] == x);
        assert(refs.contains(x));
        lemma_constraint_ref_in_all(m, i, j, x);
        lemma_index_has(bs, all_refs(m), x);
    }
}

/// What the index holds of one property `p` of the type with id `owner`:
/// the property is a binding dependent of the value set, code system,
/// notation pattern, value-range set or glossary term each of its
/// bindings names, a derivation dependent of its deriving function, and a
/// unit dependent of its unit.
pub open spec fn property_refs_indexed(bs: Seq<BucketModel>, owner: Seq<char>, p: PropertyModel) -> bool {
    let d = EntityModel { tag: 2, first: owner, second: p.id };
    &&& forall|k: int|
        0 <= k < p.bindings.len() ==> {
            let b = #[trigger] p.bindings[k];
            &&& b.kind == crate::binding::BindingKind::ValueSet ==> edges_for(bs, ent(5, b.id)).contains(
                dep(d, DependencyKind::PropertyBindingRef, "property `"@ + p.name + "` value-set binding"@),
            )
            &&& b.kind == crate::binding::BindingKind::CodeSystem ==> edges_for(bs, ent(6, b.id)).contains(
                dep(d, DependencyKind::PropertyBindingRef, "property `"@ + p.name + "` code-system binding"@),
            )
            &&& b.kind == crate::binding::BindingKind::NotationPattern ==> edges_for(bs, ent(7, b.id)).contains(
                dep(d, DependencyKind::PropertyBindingRef, "property `"@ + p.name + "` notation-pattern binding"@),
            )
            &&& b.kind == crate::binding::BindingKind::ValueRange ==> edges_for(bs, ent(8, b.id)).contains(
                dep(d, DependencyKind::PropertyBindingRef, "property `"@ + p.name + "` value-range binding"@),
            )
            &&& b.kind == crate::binding::BindingKind::Glossary ==> edges_for(bs, ent(4, b.id)).contains(
                dep(d, DependencyKind::PropertyBindingRef, "property `"@ + p.name + "` glossary binding"@),
            )
        }
    &&& p.derived_from matches Some(f) ==> edges_for(bs, ent(10, f)).contains(
        dep(d, DependencyKind::FunctionDerivation, "property `"@ + p.name + "` derived_from"@),
    )
    &&& p.unit_id matches Some(u) ==> edges_for(bs, EntityModel { tag: 18, first: Seq::empty(), second: u }).contains(
        dep(d, DependencyKind::UnitReference, "property `"@ + p.name + "` unit"@),
    )
}

proof fn lemma_prop_refs_indexed(bs: Seq<BucketModel>, raw: Seq<RefPair>, owner: Seq<char>, p: PropertyModel)
    requires
        indexes(bs, raw),
        forall|x: RefPair| #[trigger] prop_refs(owner, p).contains(x) ==> raw.contains(x),
    ensures
        property_refs_indexed(bs, owner, p),
{
    let d = prop_ent(owner, p.id);
    let a = concat_map(p.bindings, binding_refs_of(owner, p));
    let b2 = match p.derived_from {
        Some(f) => seq![
            (ent(10, f), dep(d, DependencyKind::FunctionDerivation, prop_label(p.name, "` derived_from"@))),
        ],
        None => Seq::<RefPair>::empty(),
    };
    let c = match p.unit_id {
        Some(u) => seq![
            (
                EntityModel { tag: 18, first: Seq::empty(), second: u },
                dep(d, DependencyKind::UnitReference, prop_label(p.name, "` unit"@)),
            ),
        ],
        None => Seq::<RefPair>::empty(),
    };
    assert(prop_refs(owner, p) == a + b2 + c);
    assert forall|k: int| 0 <= k < p.bindings.len() implies {
        let b = #[trigger] p.bindings[k];
        &&& b.kind == crate::binding::BindingKind::ValueSet ==> edges_for(bs, ent(5, b.id)).contains(
            dep(d, DependencyKind::PropertyBindingRef, "property `"@ + p.name + "` value-set binding"@),
        )
        &&& b.kind == crate::binding::BindingKind::CodeSystem ==> edges_for(bs, ent(6, b.id)).contains(
            dep(d, DependencyKind::PropertyBindingRef, "property `"@ + p.name + "` code-system binding"@),
        )
        &&& b.kind == crate::binding::BindingKind::NotationPattern ==> edges_for(bs, ent(7, b.id)).contains(
            dep(d, DependencyKind::PropertyBindingRef, "property `"@ + p.name + "` notation-pattern binding"@),
        )
        &&& b.kind == crate::binding::BindingKind::ValueRange ==> edges_for(bs, ent(8, b.id)).contains(
            dep(d, DependencyKind::PropertyBindingRef, "property `"@ + p.name + "` value-range binding"@),
        )
        &&& b.kind == crate::binding::BindingKind::Glossary ==> edges_for(bs, ent(4, b.id)).contains(
            dep(d, DependencyKind::PropertyBindingRef, "property `"@ + p.name + "` glossary binding"@),
        )
    } by {
        let b = p.bindings[k];
        let one = binding_ref(owner, p, b);
        assert(binding_refs_of(owner, p)(b) == one);
        if b.kind != crate::binding::BindingKind::Concept {
            let x = one[0];
            assert(one.contains(x));
            lemma_concat_map_contains(p.bindings, binding_refs_of(owner, p), k, x);
            lemma_in_left(a, b2, x);
            lemma_in_left(a + b2, c, x);
            assert(prop_refs(owner, p).contains(x));
            lemma_index_has(bs, raw, x);
        }
    }
    if p.derived_from is Some {
        let x = b2[0];
        assert(b2.contains(x));
        lemma_in_right(a, b2, x);
        lemma_in_left(a + b2, c, x);
        assert(prop_refs(owner, p).contains(x));
        lemma_index_has(bs, raw, x);
    }
    if p.unit_id is Some {
        let x = c[0];
        assert(c.contains(x));
        lemma_in_right(a + b2, c, x);
        assert(prop_refs(owner, p).contains(x));
        lemma_index_has(bs, raw, x);
    }
}

/// The index records the references of every property of every node type
/// and of every edge type: so `dependents_of` on a value set, code
/// system, notation pattern, value-range set, glossary term, function or
/// unit lists each property that names it.
pub proof fn lemma_index_records_property_references(m: OntologyModel, bs: Seq<BucketModel>, i: int, j: int)
    requires
        indexes(bs, all_refs(m)),
    ensures
        0 <= i < m.node_types.len() && 0 <= j < m.node_types[i].properties.len() ==> property_refs_indexed(
            bs,
            m.node_types[i].id,
            m.node_types[i].properties[j],
        ),
        0 <= i < m.edge_types.len() && 0 <= j < m.edge_types[i].properties.len() ==> property_refs_indexed(
            bs,
            m.edge_types[i].id,
            m.edge_types[i].properties[j],
        ),
{
    if 0 <= i < m.node_types.len() && 0 <= j < m.node_types[i].properties.len() {
        let n = m.node_types[i];
        let p = n.properties[j];
        let me = ent(0, n.id);
        let f = owned_prop_refs(n.id, me);
        let head = seq![(me, dep(prop_ent(n.id, p.id), DependencyKind::PropertyOf, prop_label(p.name, "`"@)))];
        assert(f(p) == head + prop_refs(n.id, p));
        let a = concat_map(n.properties, f);
        let b = concat_map(n.implements, id_refs(3, dep(me, DependencyKind::InterfaceImplementation, quoted("implemented by "@, n.label))));
        let c = concat_map(n.rules, id_refs(9, dep(me, DependencyKind::RuleConstraint, quoted("attached to "@, n.label))));
        let d = concat_map(n.actions, id_refs(12, dep(me, DependencyKind::ActionTarget, quoted("attached to "@, n.label))));
        let e = concat_map(n.metrics, id_refs(11, dep(me, DependencyKind::MetricScope, quoted("scoped to "@, n.label))));
        assert(node_refs_fn()(n) == a + b + c + d + e);
        assert forall|x: RefPair| #[trigger] prop_refs(n.id, p).contains(x) implies all_refs(m).contains(x) by {
            lemma_in_right(head, prop_refs(n.id, p), x);
            lemma_concat_map_contains(n.properties, f, j, x);
            lemma_in_left(a, b, x);
            lemma_in_left(a + b, c, x);
            lemma_in_left(a + b + c, d, x);
            lemma_in_left(a + b + c + d, e, x);
            lemma_concat_map_contains(m.node_types, node_refs_fn(), i, x);
            lemma_all_refs_from_nodes(m, x);
        }
        lemma_prop_refs_indexed(bs, all_refs(m), n.id, p);
    }
    if 0 <= i < m.edge_types.len() && 0 <= j < m.edge_types[i].properties.len() {
        let e = m.edge_types[i];
        let p = e.properties[j];
        let me = ent(1, e.id);
        let f = owned_prop_refs(e.id, me);
        let head = seq![(me, dep(prop_ent(e.id, p.id), DependencyKind::PropertyOf, prop_label(p.name, "`"@)))];
        assert(f(p) == head + prop_refs(e.id, p));
        let ends = seq![
            (ent(0, e.source_node_id), dep(me, DependencyKind::EdgeSource, quoted("source of "@, e.label))),
            (ent(0, e.target_node_id), dep(me, DependencyKind::EdgeTarget, quoted("target of "@, e.label))),
        ];
        let a = concat_map(e.properties, f);
        assert(edge_refs(e) == ends + a);
        assert forall|x: RefPair| #[trigger] prop_refs(e.id, p).contains(x) implies all_refs(m).contains(x) by {
            lemma_in_right(head, prop_refs(e.id, p), x);
            lemma_concat_map_contains(e.properties, f, j, x);
            lemma_in_right(ends, a, x);
            lemma_edge_ref_in_all(m, i, x);
        }
        lemma_prop_refs_indexed(bs, all_refs(m), e.id, p);
    }
}

/// A reference made by any part of an ontology is among its references.
proof fn lemma_in_all_refs(m: OntologyModel, x: RefPair)
    requires
        concat_map(m.node_types, node_refs_fn()).contains(x) || concat_map(m.edge_types, edge_refs_fn()).contains(x)
            || concat_map(m.rules, rule_refs_fn()).contains(x) || concat_map(m.object_mappings, om_refs_fn()).contains(x)
            || concat_map(m.link_mappings, lm_refs_fn()).contains(x) || concat_map(
            m.registries.value_sets,
            vs_refs_fn(),
        ).contains(x) || concat_map(m.registries.concept_maps, cm_refs_fn()).contains(x) || concat_map(
            m.enrichments,
            en_refs_fn(),
        ).contains(x) || concat_map(m.actions, act_refs_fn()).contains(x),
    ensures
        all_refs(m).contains(x),
{
    let a = concat_map(m.node_types, node_refs_fn());
    let b = concat_map(m.edge_types, edge_refs_fn());
    let c = concat_map(m.rules, rule_refs_fn());
    let d = concat_map(m.object_mappings, om_refs_fn());
    let l = concat_map(m.link_mappings, lm_refs_fn());
    let f = concat_map(m.registries.value_sets, vs_refs_fn());
    let g = concat_map(m.registries.concept_maps, cm_refs_fn());
    let h = concat_map(m.enrichments, en_refs_fn());
    let k = concat_map(m.actions, act_refs_fn());
    if a.contains(x) {
        lemma_in_left(a, b, x);
    }
    if b.contains(x) {
        lemma_in_right(a, b, x);
    }
    if (a + b).contains(x) {
        lemma_in_left(a + b, c, x);
    }
    if c.contains(x) {
        lemma_in_right(a + b, c, x);
    }
    if (a + b + c).contains(x) {
        lemma_in_left(a + b + c, d, x);
    }
    if d.contains(x) {
        lemma_in_right(a + b + c, d, x);
    }
    if (a + b + c + d).contains(x) {
        lemma_in_left(a + b + c + d, l, x);
    }
    if l.contains(x) {
        lemma_in_right(a + b + c + d, l, x);
    }
    if (a + b + c + d + l).contains(x) {
        lemma_in_left(a + b + c + d + l, f, x);
    }
    if f.contains(x) {
        lemma_in_right(a + b + c + d + l, f, x);
    }
    if (a + b + c + d + l + f).contains(x) {
        lemma_in_left(a + b + c + d + l + f, g, x);
    }
    if g.contains(x) {
        lemma_in_right(a + b + c + d + l + f, g, x);
    }
    if (a + b + c + d + l + f + g).contains(x) {
        lemma_in_left(a + b + c + d + l + f + g, h, x);
    }
    if h.contains(x) {
        lemma_in_right(a + b + c + d + l + f + g, h, x);
    }
    if (a + b + c + d + l + f + g + h).contains(x) {
        lemma_in_left(a + b + c + d + l + f + g + h, k, x);
    }
    if k.contains(x) {
        lemma_in_right(a + b + c + d + l + f + g + h, k, x);
    }
}

/// The index records what each rule's kind targets and the action that
/// activates it: a node-shape rule is a constraint dependent of its node
/// type, a property-shape rule of its property, an edge-shape rule of its
/// edge type, and a rule with an activation is an activation dependent of
/// that action.
pub proof fn lemma_index_records_rule_targets(m: OntologyModel, bs: Seq<BucketModel>, i: int)
    requires
        indexes(bs, all_refs(m)),
        0 <= i < m.rules.len(),
    ensures
        m.rules[i].kind.tag == crate::rule::RuleKindTag::NodeShape ==> edges_for(bs, ent(0, m.rules[i].kind.first)).contains(
            dep(ent(9, m.rules[i].id), DependencyKind::RuleConstraint, "rule `"@ + m.rules[i].id + "` (NodeShape)"@),
        ),
        m.rules[i].kind.tag == crate::rule::RuleKindTag::PropertyShape ==> edges_for(
            bs,
            EntityModel { tag: 2, first: m.rules[i].kind.first, second: m.rules[i].kind.second },
        ).contains(
            dep(ent(9, m.rules[i].id), DependencyKind::RuleConstraint, "rule `"@ + m.rules[i].id + "` (PropertyShape)"@),
        ),
        m.rules[i].kind.tag == crate::rule::RuleKindTag::EdgeShape ==> edges_for(bs, ent(1, m.rules[i].kind.first)).contains(
            dep(ent(9, m.rules[i].id), DependencyKind::RuleConstraint, "rule `"@ + m.rules[i].id + "` (EdgeShape)"@),
        ),
        m.rules[i].activation matches Some(a) ==> edges_for(bs, ent(12, a)).contains(
            dep(ent(9, m.rules[i].id), DependencyKind::RuleActivation, "rule `"@ + m.rules[i].id + "` activates on action"@),
        ),
{
    let r = m.rules[i];
    let kr = kind_refs(r);
    let cm = concat_map(r.constraints, constraint_refs(r.id));
    let act = match r.activation {
        Some(a) => seq![
            (
                ent(12, a),
                dep(ent(9, r.id), DependencyKind::RuleActivation, rule_label(r.id, "` activates on action"@)),
            ),
        ],
        None => Seq::<RefPair>::empty(),
    };
    assert(rule_refs_fn()(r) == kr + cm + act);
    if kr.len() > 0 {
        let x = kr[0];
        assert(kr.contains(x));
        lemma_in_left(kr, cm, x);
        lemma_in_left(kr + cm, act, x);
        lemma_concat_map_contains(m.rules, rule_refs_fn(), i, x);
        lemma_in_all_refs(m, x);
        lemma_index_has(bs, all_refs(m), x);
    }
    if act.len() > 0 {
        let x = act[0];
        assert(act.contains(x));
        lemma_in_right(kr + cm, act, x);
        lemma_concat_map_contains(m.rules, rule_refs_fn(), i, x);
        lemma_in_all_refs(m, x);
        lemma_index_has(bs, all_refs(m), x);
    }
}

/// The index records what each mapping maps to: an object mapping is a
/// target dependent of its node type and, for each property mapping, a
/// dependent of that property of the node type; a link mapping is a
/// target dependent of its edge type.
pub proof fn lemma_index_records_mappings(m: OntologyModel, bs: Seq<BucketModel>, i: int, j: int)
    requires
        indexes(bs, all_refs(m)),
    ensures
        0 <= i < m.object_mappings.len() ==> edges_for(bs, ent(0, m.object_mappings[i].node_type_id)).contains(
            dep(
                ent(14, m.object_mappings[i].id),
                DependencyKind::ObjectMappingTarget,
                quoted("mapped to relation "@, m.object_mappings[i].relation),
            ),
        ),
        0 <= i < m.object_mappings.len() && 0 <= j < m.object_mappings[i].property_mappings.len() ==> edges_for(
            bs,
            EntityModel {
                tag: 2,
                first: m.object_mappings[i].node_type_id,
                second: m.object_mappings[i].property_mappings[j].property_id,
            },
        ).contains(
            dep(ent(14, m.object_mappings[i].id), DependencyKind::PropertyMappingTarget, "object-mapping property binding"@),
        ),
        0 <= i < m.link_mappings.len() ==> edges_for(bs, ent(1, m.link_mappings[i].edge_type_id)).contains(
            dep(ent(15, m.link_mappings[i].id), DependencyKind::LinkMappingTarget, link_label(m.link_mappings[i].kind)),
        ),
{
    if 0 <= i < m.object_mappings.len() {
        let o = m.object_mappings[i];
        let head = seq![
            (
                ent(0, o.node_type_id),
                dep(ent(14, o.id), DependencyKind::ObjectMappingTarget, quoted("mapped to relation "@, o.relation)),
            ),
        ];
        let pms = concat_map(o.property_mappings, pm_refs(o));
        assert(om_refs_fn()(o) == head + pms);
        let x = head[0];
        assert(head.contains(x));
        lemma_in_left(head, pms, x);
        lemma_concat_map_contains(m.object_mappings, om_refs_fn(), i, x);
        lemma_in_all_refs(m, x);
        lemma_index_has(bs, all_refs(m), x);
        if 0 <= j < o.property_mappings.len() {
            let y = pm_refs(o)(o.property_mappings[j])[0];
            assert(pm_refs(o)(o.property_mappings[j]).contains(y));
            lemma_concat_map_contains(o.property_mappings, pm_refs(o), j, y);
            lemma_in_right(head, pms, y);
            lemma_concat_map_contains(m.object_mappings, om_refs_fn(), i, y);
            lemma_in_all_refs(m, y);
            lemma_index_has(bs, all_refs(m), y);
        }
    }
    if 0 <= i < m.link_mappings.len() {
        let l = m.link_mappings[i];
        let x = lm_refs(l)[0];
        assert(lm_refs_fn()(l).contains(x));
        lemma_concat_map_contains(m.link_mappings, lm_refs_fn(), i, x);
        lemma_in_all_refs(m, x);
        lemma_index_has(bs, all_refs(m), x);
    }
}

/// The index records what enrichments and actions depend on: an
/// enrichment is a target dependent of the node type it fills, and an
/// action is a rule dependent of each rule among its preconditions and
/// postconditions.
pub proof fn lemma_index_records_enrichments_and_actions(m: OntologyModel, bs: Seq<BucketModel>, i: int, j: int)
    requires
        indexes(bs, all_refs(m)),
    ensures
        0 <= i < m.enrichments.len() ==> edges_for(bs, ent(0, m.enrichments[i].target_node_type_id)).contains(
            dep(
                ent(13, m.enrichments[i].id),
                DependencyKind::EnrichmentTarget,
                "enrichment `"@ + m.enrichments[i].name + "`"@,
            ),
        ),
        0 <= i < m.actions.len() && 0 <= j < m.actions[i].preconditions.len() ==> edges_for(
            bs,
            ent(9, m.actions[i].preconditions[j]),
        ).contains(
            dep(ent(12, m.actions[i].id), DependencyKind::ActionRule, "action `"@ + m.actions[i].name + "` references rule"@),
        ),
        0 <= i < m.actions.len() && 0 <= j < m.actions[i].postconditions.len() ==> edges_for(
            bs,
            ent(9, m.actions[i].postconditions[j]),
        ).contains(
            dep(ent(12, m.actions[i].id), DependencyKind::ActionRule, "action `"@ + m.actions[i].name + "` references rule"@),
        ),
{
    if 0 <= i < m.enrichments.len() {
        let e = m.enrichments[i];
        let x = en_refs(e)[0];
        assert(en_refs_fn()(e).contains(x));
        lemma_concat_map_contains(m.enrichments, en_refs_fn(), i, x);
        lemma_in_all_refs(m, x);
        lemma_index_has(bs, all_refs(m), x);
    }
    if 0 <= i < m.actions.len() {
        let a = m.actions[i];
        let f = id_refs(9, action_edge(a));
        let pre = concat_map(a.preconditions, f);
        let post = concat_map(a.postconditions, f);
        assert(act_refs_fn()(a) == pre + post);
        if 0 <= j < a.preconditions.len() {
            let x = f(a.preconditions[j])[0];
            assert(f(a.preconditions[j]).contains(x));
            lemma_concat_map_contains(a.preconditions, f, j, x);
            lemma_in_left(pre, post, x);
            lemma_concat_map_contains(m.actions, act_refs_fn(), i, x);
            lemma_in_all_refs(m, x);
            lemma_index_has(bs, all_refs(m), x);
        }
        if 0 <= j < a.postconditions.len() {
            let x = f(a.postconditions[j])[0];
            assert(f(a.postconditions[j]).contains(x));
            lemma_concat_map_contains(a.postconditions, f, j, x);
            lemma_in_right(pre, post, x);
            lemma_concat_map_contains(m.actions, act_refs_fn(), i, x);
            lemma_in_all_refs(m, x);
            lemma_index_has(bs, all_refs(m), x);
        }
    }
}

/// The index records what each node type is attached to: it is a
/// dependent of each interface it implements, each rule attached to it,
/// each action attached to it and each metric scoped to it.
pub proof fn lemma_index_records_node_attachments(m: OntologyModel, bs: Seq<BucketModel>, i: int, j: int)
    requires
        indexes(bs, all_refs(m)),
        0 <= i < m.node_types.len(),
    ensures
        0 <= j < m.node_types[i].implements.len() ==> edges_for(bs, ent(3, m.node_types[i].implements[j])).contains(
            dep(
                ent(0, m.node_types[i].id),
                DependencyKind::InterfaceImplementation,
                quoted("implemented by "@, m.node_types[i].label),
            ),
        ),
        0 <= j < m.node_types[i].rules.len() ==> edges_for(bs, ent(9, m.node_types[i].rules[j])).contains(
            dep(ent(0, m.node_types[i].id), DependencyKind::RuleConstraint, quoted("attached to "@, m.node_types[i].label)),
        ),
        0 <= j < m.node_types[i].actions.len() ==> edges_for(bs, ent(12, m.node_types[i].actions[j])).contains(
            dep(ent(0, m.node_types[i].id), DependencyKind::ActionTarget, quoted("attached to "@, m.node_types[i].label)),
        ),
        0 <= j < m.node_types[i].metrics.len() ==> edges_for(bs, ent(11, m.node_types[i].metrics[j])).contains(
            dep(ent(0, m.node_types[i].id), DependencyKind::MetricScope, quoted("scoped to "@, m.node_types[i].label)),
        ),
{
    let n = m.node_types[i];
    let me = ent(0, n.id);
    let fa = owned_prop_refs(n.id, me);
    let fb = id_refs(3, dep(me, DependencyKind::InterfaceImplementation, quoted("implemented by "@, n.label)));
    let fc = id_refs(9, dep(me, DependencyKind::RuleConstraint, quoted("attached to "@, n.label)));
    let fd = id_refs(12, dep(me, DependencyKind::ActionTarget, quoted("attached to "@, n.label)));
    let fe = id_refs(11, dep(me, DependencyKind::MetricScope, quoted("scoped to "@, n.label)));
    let a = concat_map(n.properties, fa);
    let b = concat_map(n.implements, fb);
    let c = concat_map(n.rules, fc);
    let d = concat_map(n.actions, fd);
    let e = concat_map(n.metrics, fe);
    assert(node_refs_fn()(n) == a + b + c + d + e);
    if 0 <= j < n.implements.len() {
        let x = fb(n.implements[j])[0];
        assert(fb(n.implements[j]).contains(x));
        lemma_concat_map_contains(n.implements, fb, j, x);
        lemma_in_right(a, b, x);
        lemma_in_left(a + b, c, x);
        lemma_in_left(a + b + c, d, x);
        lemma_in_left(a + b + c + d, e, x);
        lemma_concat_map_contains(m.node_types, node_refs_fn(), i, x);
        lemma_in_all_refs(m, x);
        lemma_index_has(bs, all_refs(m), x);
    }
    if 0 <= j < n.rules.len() {
        let x = fc(n.rules[j])[0];
        assert(fc(n.rules[j]).contains(x));
        lemma_concat_map_contains(n.rules, fc, j, x);
        lemma_in_right(a + b, c, x);
        lemma_in_left(a + b + c, d, x);
        lemma_in_left(a + b + c + d, e, x);
        lemma_concat_map_contains(m.node_types, node_refs_fn(), i, x);
        lemma_in_all_refs(m, x);
        lemma_index_has(bs, all_refs(m), x);
    }
    if 0 <= j < n.actions.len() {
        let x = fd(n.actions[j])[0];
        assert(fd(n.actions[j]).contains(x));
        lemma_concat_map_contains(n.actions, fd, j, x);
        lemma_in_right(a + b + c, d, x);
        lemma_in_left(a + b + c + d, e, x);
        lemma_concat_map_contains(m.node_types, node_refs_fn(), i, x);
        lemma_in_all_refs(m, x);
        lemma_index_has(bs, all_refs(m), x);
    }
    if 0 <= j < n.metrics.len() {
        let x = fe(n.metrics[j])[0];
        assert(fe(n.metrics[j]).contains(x));
        lemma_concat_map_contains(n.metrics, fe, j, x);
        lemma_in_right(a + b + c + d, e, x);
        lemma_concat_map_contains(m.node_types, node_refs_fn(), i, x);
        lemma_in_all_refs(m, x);
        lemma_index_has(bs, all_refs(m), x);
    }
}

} // verus!
