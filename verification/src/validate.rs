//! Structural validation of an [`OntologyIR`]: unique identities and
//! references that resolve.

use vstd::prelude::*;

use crate::ir::{
    EdgeModel, EdgeTypeDef, IndexDef, IndexModel, LinkMappingDef, LinkMappingModel, NodeModel,
    NodeTypeDef, ObjectMappingDef, ObjectMappingModel, OntologyIR, OntologyModel,
};
use crate::glossary::GlossaryTermDef;
use crate::model::{has_key, keys_are_unique, keys_unique, models, position_of, texts};
use crate::text::str_equal;
use vstd::string::StringExecFns;

verus! {

/// No two node types carry the same label.
pub open spec fn labels_unique(s: Seq<NodeModel>) -> bool {
    forall|i: int, j: int|
        0 <= i < s.len() && 0 <= j < s.len() && i != j ==> (#[trigger] s[i]).label != (
        #[trigger] s[j]).label
}

/// Both endpoints of every edge type are node types.
pub open spec fn endpoints_exist(nodes: Seq<NodeModel>, edges: Seq<EdgeModel>) -> bool {
    forall|i: int|
        0 <= i < edges.len() ==> has_key::<NodeTypeDef>(nodes, (#[trigger] edges[i]).source_node_id)
            && has_key::<NodeTypeDef>(nodes, edges[i].target_node_id)
}

/// No two edge types share label, source and target.
pub open spec fn triples_unique(s: Seq<EdgeModel>) -> bool {
    forall|i: int, j: int|
        0 <= i < s.len() && 0 <= j < s.len() && i != j ==> !((#[trigger] s[i]).label == (
        #[trigger] s[j]).label && s[i].source_node_id == s[j].source_node_id
            && s[i].target_node_id == s[j].target_node_id)
}

/// Every index sits on a node type.
pub open spec fn indexes_anchored(nodes: Seq<NodeModel>, xs: Seq<IndexModel>) -> bool {
    forall|i: int| 0 <= i < xs.len() ==> has_key::<NodeTypeDef>(nodes, (#[trigger] xs[i]).node_id)
}

/// Every object mapping targets a node type.
pub open spec fn object_mappings_anchored(
    nodes: Seq<NodeModel>,
    oms: Seq<ObjectMappingModel>,
) -> bool {
    forall|i: int|
        0 <= i < oms.len() ==> has_key::<NodeTypeDef>(nodes, (#[trigger] oms[i]).node_type_id)
}

/// Every link mapping targets an edge type.
pub open spec fn link_mappings_anchored(edges: Seq<EdgeModel>, ls: Seq<LinkMappingModel>) -> bool {
    forall|i: int|
        0 <= i < ls.len() ==> has_key::<EdgeTypeDef>(edges, (#[trigger] ls[i]).edge_type_id)
}

/// Every glossary anchor of a node or edge type names a glossary term.
pub open spec fn anchors_resolve(m: OntologyModel) -> bool {
    &&& forall|i: int, k: int|
        0 <= i < m.node_types.len() && 0 <= k < m.node_types[i].glossary_anchors.len() ==> has_key::<
            GlossaryTermDef,
        >(m.registries.glossary_terms, #[trigger] m.node_types[i].glossary_anchors[k])
    &&& forall|i: int, k: int|
        0 <= i < m.edge_types.len() && 0 <= k < m.edge_types[i].glossary_anchors.len() ==> has_key::<
            GlossaryTermDef,
        >(m.registries.glossary_terms, #[trigger] m.edge_types[i].glossary_anchors[k])
}

/// The structural invariant of an ontology.
pub open spec fn well_formed(m: OntologyModel) -> bool {
    &&& keys_unique::<NodeTypeDef>(m.node_types)
    &&& labels_unique(m.node_types)
    &&& keys_unique::<EdgeTypeDef>(m.edge_types)
    &&& endpoints_exist(m.node_types, m.edge_types)
    &&& triples_unique(m.edge_types)
    &&& keys_unique::<IndexDef>(m.indexes)
    &&& indexes_anchored(m.node_types, m.indexes)
    &&& keys_unique::<ObjectMappingDef>(m.object_mappings)
    &&& object_mappings_anchored(m.node_types, m.object_mappings)
    &&& keys_unique::<LinkMappingDef>(m.link_mappings)
    &&& link_mappings_anchored(m.edge_types, m.link_mappings)
    &&& anchors_resolve(m)
    &&& crate::integrity::dangling_refs(m).len() == 0
}

/// The message of one structural rule: none when it holds.
pub open spec fn failed_rule(holds: bool, text: Seq<char>) -> Seq<Seq<char>> {
    if holds {
        Seq::empty()
    } else {
        seq![text]
    }
}

/// The messages of the violated structural rules, in the order the rules
/// are checked.
pub open spec fn structural_messages(m: OntologyModel) -> Seq<Seq<char>> {
    failed_rule(keys_unique::<NodeTypeDef>(m.node_types), "duplicate node type id"@)
        + failed_rule(labels_unique(m.node_types), "duplicate node type label"@)
        + failed_rule(keys_unique::<EdgeTypeDef>(m.edge_types), "duplicate edge type id"@)
        + failed_rule(
        endpoints_exist(m.node_types, m.edge_types),
        "edge type references an unknown node type"@,
    ) + failed_rule(triples_unique(m.edge_types), "duplicate edge type between the same endpoints"@)
        + failed_rule(keys_unique::<IndexDef>(m.indexes), "duplicate index id"@) + failed_rule(
        indexes_anchored(m.node_types, m.indexes),
        "index references an unknown node type"@,
    ) + failed_rule(keys_unique::<ObjectMappingDef>(m.object_mappings), "duplicate object mapping id"@)
        + failed_rule(
        object_mappings_anchored(m.node_types, m.object_mappings),
        "object mapping references an unknown node type"@,
    ) + failed_rule(keys_unique::<LinkMappingDef>(m.link_mappings), "duplicate link mapping id"@)
        + failed_rule(
        link_mappings_anchored(m.edge_types, m.link_mappings),
        "link mapping references an unknown edge type"@,
    ) + failed_rule(anchors_resolve(m), "glossary anchor references an unknown glossary term"@)
}

/// The messages of the dangling registry references of an ontology.
pub open spec fn dangling_messages(m: OntologyModel) -> Seq<Seq<char>> {
    crate::integrity::dangling_refs(m).map_values(
        |d: crate::integrity::DanglingModel| crate::integrity::rendered(d).message,
    )
}

/// Whether every id of `ids` names a glossary term of `ts`.
fn ids_are_terms(ts: &Vec<GlossaryTermDef>, ids: &Vec<String>) -> (r: bool)
    ensures
        r == forall|k: int| 0 <= k < ids@.len() ==> has_key::<GlossaryTermDef>(models(ts@), #[trigger] texts(ids@)[k]),
{
    let mut k: usize = 0;
    while k < ids.len()
        invariant
            k <= ids.len(),
            forall|j: int| 0 <= j < k ==> has_key::<GlossaryTermDef>(models(ts@), #[trigger] texts(ids@)[j]),
        decreases ids.len() - k,
    {
        assert(texts(ids@)[k as int] == ids@[k as int]@);
        if position_of(ts, ids[k].as_str()).is_none() {
            proof {
                crate::model::lemma_first_match_props(models(ts@), crate::model::key_is::<GlossaryTermDef>(ids@[k as int]@));
            }
            return false;
        }
        proof {
            crate::model::lemma_first_match_props(models(ts@), crate::model::key_is::<GlossaryTermDef>(ids@[k as int]@));
        }
        k = k + 1;
    }
    true
}

/// Whether the glossary anchors of every node and edge type name
/// glossary terms.
fn glossary_anchors_resolve(o: &OntologyIR) -> (r: bool)
    ensures
        r == anchors_resolve(o@),
{
    let ghost m = o@;
    let ts = &o.registries.glossary_terms;
    let mut i: usize = 0;
    while i < o.node_types.len()
        invariant
            i <= o.node_types.len(),
            m == o@,
            models(ts@) == m.registries.glossary_terms,
            forall|a: int, k: int|
                0 <= a < i && 0 <= k < m.node_types[a].glossary_anchors.len() ==> has_key::<GlossaryTermDef>(
                    m.registries.glossary_terms,
                    #[trigger] m.node_types[a].glossary_anchors[k],
                ),
        decreases o.node_types.len() - i,
    {
        assert(m.node_types[i as int] == o.node_types@[i as int]@);
        let ok = ids_are_terms(ts, &o.node_types[i].glossary_anchors);
        proof {
            let ids = o.node_types@[i as int].glossary_anchors@;
            let anchors = m.node_types[i as int].glossary_anchors;
            assert(anchors == texts(ids));
            assert(m.registries.glossary_terms == models(ts@));
            if !ok {
                let k = choose|k: int|
                    0 <= k < ids.len() && !has_key::<GlossaryTermDef>(models(ts@), #[trigger] texts(ids)[k]);
                assert(!has_key::<GlossaryTermDef>(m.registries.glossary_terms, m.node_types[i as int].glossary_anchors[k]));
            } else {
                assert forall|a: int, k: int|
                    0 <= a < i + 1 && 0 <= k < m.node_types[a].glossary_anchors.len() implies has_key::<
                        GlossaryTermDef,
                    >(m.registries.glossary_terms, #[trigger] m.node_types[a].glossary_anchors[k]) by {
                    if a == i {
                        assert(anchors[k] == texts(ids)[k]);
                    }
                }
            }
        }
        if !ok {
            return false;
        }
        i = i + 1;
    }
    let mut i: usize = 0;
    while i < o.edge_types.len()
        invariant
            i <= o.edge_types.len(),
            m == o@,
            models(ts@) == m.registries.glossary_terms,
            forall|a: int, k: int|
                0 <= a < o.node_types@.len() && 0 <= k < m.node_types[a].glossary_anchors.len() ==> has_key::<
                    GlossaryTermDef,
                >(m.registries.glossary_terms, #[trigger] m.node_types[a].glossary_anchors[k]),
            forall|a: int, k: int|
                0 <= a < i && 0 <= k < m.edge_types[a].glossary_anchors.len() ==> has_key::<GlossaryTermDef>(
                    m.registries.glossary_terms,
                    #[trigger] m.edge_types[a].glossary_anchors[k],
                ),
        decreases o.edge_types.len() - i,
    {
        assert(m.edge_types[i as int] == o.edge_types@[i as int]@);
        let ok = ids_are_terms(ts, &o.edge_types[i].glossary_anchors);
        proof {
            let ids = o.edge_types@[i as int].glossary_anchors@;
            let anchors = m.edge_types[i as int].glossary_anchors;
            assert(anchors == texts(ids));
            assert(m.registries.glossary_terms == models(ts@));
            if !ok {
                let k = choose|k: int|
                    0 <= k < ids.len() && !has_key::<GlossaryTermDef>(models(ts@), #[trigger] texts(ids)[k]);
                assert(!has_key::<GlossaryTermDef>(m.registries.glossary_terms, m.edge_types[i as int].glossary_anchors[k]));
            } else {
                assert forall|a: int, k: int|
                    0 <= a < i + 1 && 0 <= k < m.edge_types[a].glossary_anchors.len() implies has_key::<
                        GlossaryTermDef,
                    >(m.registries.glossary_terms, #[trigger] m.edge_types[a].glossary_anchors[k]) by {
                    if a == i {
                        assert(anchors[k] == texts(ids)[k]);
                    }
                }
            }
        }
        if !ok {
            return false;
        }
        i = i + 1;
    }
    true
}

fn report(errors: &mut Vec<String>, holds: bool, text: &str)
    ensures
        texts(final(errors)@) == texts(old(errors)@) + failed_rule(holds, text@),
{
    if !holds {
        errors.push(String::from_str(text));
    }
    assert(texts(errors@) =~= texts(old(errors)@) + failed_rule(holds, text@));
}

fn node_labels_unique(v: &Vec<NodeTypeDef>) -> (r: bool)
    ensures
        r == labels_unique(models(v@)),
{
    let ghost s = models(v@);
    let n = v.len();
    let mut i: usize = 0;
    while i < n
        invariant
            n == v.len(),
            s == models(v@),
            i <= n,
            forall|a: int, b: int|
                0 <= a < i && 0 <= b < n && a != b ==> (#[trigger] s[a]).label != (
                #[trigger] s[b]).label,
        decreases n - i,
    {
        let mut j: usize = 0;
        while j < n
            invariant
                n == v.len(),
                s == models(v@),
                i < n,
                j <= n,
                forall|a: int, b: int|
                    0 <= a < i && 0 <= b < n && a != b ==> (#[trigger] s[a]).label != (
                    #[trigger] s[b]).label,
                forall|b: int| 0 <= b < j && b != i ==> s[i as int].label != (#[trigger] s[b]).label,
            decreases n - j,
        {
            if j != i && str_equal(v[i].label.as_str(), v[j].label.as_str()) {
                assert(s[i as int].label == s[j as int].label);
                return false;
            }
            j = j + 1;
        }
        i = i + 1;
    }
    true
}

fn edge_triples_unique(v: &Vec<EdgeTypeDef>) -> (r: bool)
    ensures
        r == triples_unique(models(v@)),
{
    let ghost s = models(v@);
    let n = v.len();
    let mut i: usize = 0;
    while i < n
        invariant
            n == v.len(),
            s == models(v@),
            i <= n,
            forall|a: int, b: int|
                0 <= a < i && 0 <= b < n && a != b ==> !((#[trigger] s[a]).label == (
                #[trigger] s[b]).label && s[a].source_node_id == s[b].source_node_id
                    && s[a].target_node_id == s[b].target_node_id),
        decreases n - i,
    {
        let mut j: usize = 0;
        while j < n
            invariant
                n == v.len(),
                s == models(v@),
                i < n,
                j <= n,
                forall|a: int, b: int|
                    0 <= a < i && 0 <= b < n && a != b ==> !((#[trigger] s[a]).label == (
                    #[trigger] s[b]).label && s[a].source_node_id == s[b].source_node_id
                        && s[a].target_node_id == s[b].target_node_id),
                forall|b: int|
                    0 <= b < j && b != i ==> !(s[i as int].label == (#[trigger] s[b]).label
                        && s[i as int].source_node_id == s[b].source_node_id
                        && s[i as int].target_node_id == s[b].target_node_id),
            decreases n - j,
        {
            let a = &v[i];
            let b = &v[j];
            if j != i && str_equal(a.label.as_str(), b.label.as_str()) && str_equal(
                a.source_node_id.as_str(),
                b.source_node_id.as_str(),
            ) && str_equal(a.target_node_id.as_str(), b.target_node_id.as_str()) {
                assert(s[i as int] == v@[i as int]@ && s[j as int] == v@[j as int]@);
                return false;
            }
            j = j + 1;
        }
        i = i + 1;
    }
    true
}

fn edges_resolve(nodes: &Vec<NodeTypeDef>, edges: &Vec<EdgeTypeDef>) -> (r: bool)
    ensures
        r == endpoints_exist(models(nodes@), models(edges@)),
{
    let ghost es = models(edges@);
    let n = edges.len();
    let mut i: usize = 0;
    while i < n
        invariant
            n == edges.len(),
            es == models(edges@),
            i <= n,
            forall|a: int|
                0 <= a < i ==> has_key::<NodeTypeDef>(models(nodes@), (#[trigger] es[a]).source_node_id)
                    && has_key::<NodeTypeDef>(models(nodes@), es[a].target_node_id),
        decreases n - i,
    {
        if position_of(nodes, edges[i].source_node_id.as_str()).is_none() || position_of(
            nodes,
            edges[i].target_node_id.as_str(),
        ).is_none() {
            assert(es[i as int] == edges@[i as int]@);
            return false;
        }
        assert(es[i as int] == edges@[i as int]@);
        i = i + 1;
    }
    true
}

fn indexes_resolve(nodes: &Vec<NodeTypeDef>, xs: &Vec<IndexDef>) -> (r: bool)
    ensures
        r == indexes_anchored(models(nodes@), models(xs@)),
{
    let ghost s = models(xs@);
    let n = xs.len();
    let mut i: usize = 0;
    while i < n
        invariant
            n == xs.len(),
            s == models(xs@),
            i <= n,
            forall|a: int| 0 <= a < i ==> has_key::<NodeTypeDef>(models(nodes@), (#[trigger] s[a]).node_id),
        decreases n - i,
    {
        if position_of(nodes, xs[i].index_node_id().as_str()).is_none() {
            assert(s[i as int] == xs@[i as int]@);
            return false;
        }
        assert(s[i as int] == xs@[i as int]@);
        i = i + 1;
    }
    true
}

fn object_mappings_resolve(nodes: &Vec<NodeTypeDef>, oms: &Vec<ObjectMappingDef>) -> (r: bool)
    ensures
        r == object_mappings_anchored(models(nodes@), models(oms@)),
{
    let ghost s = models(oms@);
    let n = oms.len();
    let mut i: usize = 0;
    while i < n
        invariant
            n == oms.len(),
            s == models(oms@),
            i <= n,
            forall|a: int|
                0 <= a < i ==> has_key::<NodeTypeDef>(models(nodes@), (#[trigger] s[a]).node_type_id),
        decreases n - i,
    {
        if position_of(nodes, oms[i].node_type_id.as_str()).is_none() {
            assert(s[i as int] == oms@[i as int]@);
            return false;
        }
        assert(s[i as int] == oms@[i as int]@);
        i = i + 1;
    }
    true
}

fn link_mappings_resolve(edges: &Vec<EdgeTypeDef>, ls: &Vec<LinkMappingDef>) -> (r: bool)
    ensures
        r == link_mappings_anchored(models(edges@), models(ls@)),
{
    let ghost s = models(ls@);
    let n = ls.len();
    let mut i: usize = 0;
    while i < n
        invariant
            n == ls.len(),
            s == models(ls@),
            i <= n,
            forall|a: int|
                0 <= a < i ==> has_key::<EdgeTypeDef>(models(edges@), (#[trigger] s[a]).edge_type_id),
        decreases n - i,
    {
        if position_of(edges, ls[i].edge_type_id.as_str()).is_none() {
            assert(s[i as int] == ls@[i as int]@);
            return false;
        }
        assert(s[i as int] == ls@[i as int]@);
        i = i + 1;
    }
    true
}

impl OntologyIR {
    /// One message per violated structural rule, then one per dangling
    /// registry reference; empty exactly when the
    /// ontology is well formed.
    #[verifier::rlimit(60)]
    pub fn validate(&self) -> (errors: Vec<String>)
        ensures
            texts(errors@) == structural_messages(self@) + dangling_messages(self@),
            errors@.len() == 0 <==> well_formed(self@),
    {
        let mut errors: Vec<String> = Vec::new();
        assert(texts(errors@) =~= Seq::<Seq<char>>::empty());
        report(&mut errors, keys_are_unique(&self.node_types), "duplicate node type id");
        report(&mut errors, node_labels_unique(&self.node_types), "duplicate node type label");
        report(&mut errors, keys_are_unique(&self.edge_types), "duplicate edge type id");
        report(
            &mut errors,
            edges_resolve(&self.node_types, &self.edge_types),
            "edge type references an unknown node type",
        );
        report(
            &mut errors,
            edge_triples_unique(&self.edge_types),
            "duplicate edge type between the same endpoints",
        );
        report(&mut errors, keys_are_unique(&self.indexes), "duplicate index id");
        report(
            &mut errors,
            indexes_resolve(&self.node_types, &self.indexes),
            "index references an unknown node type",
        );
        report(&mut errors, keys_are_unique(&self.object_mappings), "duplicate object mapping id");
        report(
            &mut errors,
            object_mappings_resolve(&self.node_types, &self.object_mappings),
            "object mapping references an unknown node type",
        );
        report(&mut errors, keys_are_unique(&self.link_mappings), "duplicate link mapping id");
        report(
            &mut errors,
            link_mappings_resolve(&self.edge_types, &self.link_mappings),
            "link mapping references an unknown edge type",
        );
        report(&mut errors, glossary_anchors_resolve(self), "glossary anchor references an unknown glossary term");
        let ghost structural = texts(errors@);
        assert(structural =~= structural_messages(self@));
        let dangling = crate::integrity::RegistryReferenceCheck::dangling_references(self);
        let diagnostics = crate::integrity::render_dangling_references(dangling.as_slice());
        let ghost before = errors@.len();
        let mut i: usize = 0;
        while i < diagnostics.len()
            invariant
                i <= diagnostics@.len(),
                errors@.len() == before + i,
                before == structural.len(),
                models(diagnostics@) == models(dangling@).map_values(crate::integrity::renderer()),
                models(dangling@) == crate::integrity::dangling_refs(self@),
                texts(errors@) == structural + dangling_messages(self@).take(i as int),
            decreases diagnostics@.len() - i,
        {
            let ghost e0 = errors@;
            errors.push(diagnostics[i].message.clone());
            proof {
                assert(models(diagnostics@)[i as int] == diagnostics@[i as int]@);
                assert(models(diagnostics@).len() == diagnostics@.len());
                assert(models(dangling@).len() == dangling@.len());
                assert(crate::integrity::dangling_refs(self@).len() == diagnostics@.len());
                assert(models(diagnostics@)[i as int] == crate::integrity::renderer()(
                    crate::integrity::dangling_refs(self@)[i as int],
                ));
                assert(dangling_messages(self@)[i as int] == diagnostics@[i as int]@.message);
                assert(dangling_messages(self@).take(i + 1) =~= dangling_messages(self@).take(i as int).push(
                    diagnostics@[i as int]@.message,
                ));
                assert(texts(errors@) =~= texts(e0).push(diagnostics@[i as int].message@));
            }
            i = i + 1;
        }
        assert(diagnostics@.len() == dangling@.len()) by {
            assert(crate::model::models(diagnostics@).len() == diagnostics@.len());
            assert(crate::model::models(dangling@).len() == dangling@.len());
        }
        assert(dangling_messages(self@).take(i as int) =~= dangling_messages(self@));
        errors
    }
}

} // verus!
