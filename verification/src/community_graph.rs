//! The shape of the community graph: which ontology entities become
//! graph nodes and which of them are linked. Link weights are attached
//! by the detection run.

use vstd::prelude::*;

use crate::ir::{OntologyIR, OntologyModel};
use crate::text::str_equal;

verus! {

/// The kind of ontology entity a graph node stands for.
#[derive(Debug, Clone, Copy, PartialEq, Eq, Hash, Structural)]
pub enum EntityKind {
    NodeType,
    EdgeType,
    Concept,
    GlossaryTerm,
}

/// One node of the community graph.
#[derive(Debug, Clone, PartialEq, Eq)]
pub struct CommunityGraphNode {
    pub kind: EntityKind,
    pub logical_id: String,
    pub display_name: String,
}

/// Model of a graph node: kind, id and display name.
pub type NodeKey = (EntityKind, Seq<char>, Seq<char>);

impl View for CommunityGraphNode {
    type V = NodeKey;

    open spec fn view(&self) -> NodeKey {
        (self.kind, self.logical_id@, self.display_name@)
    }
}

/// The graph's nodes and its undirected links, as pairs of node indices:
/// those of edge types to their endpoints (edge type first, node type
/// second), those of node and edge types to the concepts they realise
/// (type first, concept second), and those of glossary terms to the
/// concepts they name (term first, concept second).
#[derive(Debug, Clone, PartialEq, Eq)]
pub struct GraphTopology {
    pub nodes: Vec<CommunityGraphNode>,
    pub links: Vec<(usize, usize)>,
    pub concept_links: Vec<(usize, usize)>,
    pub term_links: Vec<(usize, usize)>,
}

/// The entities offered as nodes, in order: node types, edge types (each
/// named by its label), concepts (named by their canonical term), then
/// glossary terms (named by their English term).
pub open spec fn offered(m: OntologyModel) -> Seq<NodeKey> {
    m.node_types.map_values(|n: crate::ir::NodeModel| (EntityKind::NodeType, n.id, n.label))
        + m.edge_types.map_values(|e: crate::ir::EdgeModel| (EntityKind::EdgeType, e.id, e.label))
        + m.registries.concepts.map_values(
            |c: crate::concept::ConceptModel| (EntityKind::Concept, c.id, c.canonical_term_id),
        ) + m.registries.glossary_terms.map_values(
            |t: crate::glossary::GlossaryTermModel| (EntityKind::GlossaryTerm, t.id, t.term.en),
        )
}

/// The node of `kind` and `id`.
pub open spec fn is_node(kind: EntityKind, id: Seq<char>) -> spec_fn(NodeKey) -> bool {
    |k: NodeKey| k.0 == kind && k.1 == id
}

/// The offered entities with each `(kind, id)` kept at its first offer.
pub open spec fn first_offers(s: Seq<NodeKey>) -> Seq<NodeKey>
    decreases s.len(),
{
    if s.len() == 0 {
        s
    } else {
        let r = first_offers(s.drop_last());
        if crate::model::first_match(r, is_node(s.last().0, s.last().1)) is Some {
            r
        } else {
            r.push(s.last())
        }
    }
}

/// The links of one edge type at node index `e`: to its source and to
/// its target node type, each when it is a node of the graph.
pub open spec fn endpoint_links(nodes: Seq<NodeKey>, e: int, source: Seq<char>, target: Seq<char>) -> Seq<(usize, usize)> {
    (match crate::model::first_match(nodes, is_node(EntityKind::NodeType, source)) {
        Some(n) => seq![(e as usize, n as usize)],
        None => Seq::empty(),
    }) + (match crate::model::first_match(nodes, is_node(EntityKind::NodeType, target)) {
        Some(n) => seq![(e as usize, n as usize)],
        None => Seq::empty(),
    })
}

/// The links of a run of edge types, edge type by edge type.
pub open spec fn links_of(nodes: Seq<NodeKey>, es: Seq<crate::ir::EdgeModel>) -> Seq<(usize, usize)>
    decreases es.len(),
{
    if es.len() == 0 {
        Seq::empty()
    } else {
        links_of(nodes, es.drop_last()) + match crate::model::first_match(
            nodes,
            is_node(EntityKind::EdgeType, es.last().id),
        ) {
            Some(e) => endpoint_links(nodes, e, es.last().source_node_id, es.last().target_node_id),
            None => Seq::empty(),
        }
    }
}

/// The link of the node of `kind` and `id` to concept `concept`, when
/// there is such a concept and both are nodes of the graph.
pub open spec fn concept_link(
    nodes: Seq<NodeKey>,
    kind: EntityKind,
    id: Seq<char>,
    concept: Option<Seq<char>>,
) -> Seq<(usize, usize)> {
    match (crate::model::first_match(nodes, is_node(kind, id)), concept) {
        (Some(a), Some(c)) => match crate::model::first_match(nodes, is_node(EntityKind::Concept, c)) {
            Some(b) => seq![(a as usize, b as usize)],
            None => Seq::empty(),
        },
        _ => Seq::empty(),
    }
}

/// The concept links of a run of node types, type by type.
pub open spec fn node_concept_links(nodes: Seq<NodeKey>, ns: Seq<crate::ir::NodeModel>) -> Seq<(usize, usize)>
    decreases ns.len(),
{
    if ns.len() == 0 {
        Seq::empty()
    } else {
        node_concept_links(nodes, ns.drop_last()) + concept_link(
            nodes,
            EntityKind::NodeType,
            ns.last().id,
            ns.last().concept_id,
        )
    }
}

/// The concept links of a run of edge types, type by type.
pub open spec fn edge_concept_links(nodes: Seq<NodeKey>, es: Seq<crate::ir::EdgeModel>) -> Seq<(usize, usize)>
    decreases es.len(),
{
    if es.len() == 0 {
        Seq::empty()
    } else {
        edge_concept_links(nodes, es.drop_last()) + concept_link(
            nodes,
            EntityKind::EdgeType,
            es.last().id,
            es.last().concept_id,
        )
    }
}

fn link_to_concept(
    nodes: &Vec<CommunityGraphNode>,
    kind: EntityKind,
    id: &str,
    concept: &Option<String>,
    links: &mut Vec<(usize, usize)>,
)
    ensures
        final(links)@ == old(links)@ + concept_link(node_keys(nodes@), kind, id@, crate::model::opt_text(*concept)),
{
    let ghost before = links@;
    if let Some(a) = find_node(nodes, kind, id) {
        if let Some(c) = concept {
            if let Some(b) = find_node(nodes, EntityKind::Concept, c.as_str()) {
                links.push((a, b));
            }
        }
    }
    assert(links@ =~= before + concept_link(node_keys(nodes@), kind, id@, crate::model::opt_text(*concept)));
}

/// The link of one glossary term: to the concept it names, when both
/// are nodes of the graph.
pub open spec fn term_link(nodes: Seq<NodeKey>, t: crate::glossary::GlossaryTermModel) -> Seq<(usize, usize)> {
    match (crate::model::first_match(nodes, is_node(EntityKind::GlossaryTerm, t.id)), t.concept_id) {
        (Some(a), Some(c)) => match crate::model::first_match(nodes, is_node(EntityKind::Concept, c)) {
            Some(b) => seq![(a as usize, b as usize)],
            None => Seq::empty(),
        },
        _ => Seq::empty(),
    }
}

/// The links of a run of glossary terms, term by term.
pub open spec fn term_links_of(nodes: Seq<NodeKey>, ts: Seq<crate::glossary::GlossaryTermModel>) -> Seq<(usize, usize)>
    decreases ts.len(),
{
    if ts.len() == 0 {
        Seq::empty()
    } else {
        term_links_of(nodes, ts.drop_last()) + term_link(nodes, ts.last())
    }
}

/// Models of graph nodes.
pub open spec fn node_keys(v: Seq<CommunityGraphNode>) -> Seq<NodeKey> {
    v.map_values(|n: CommunityGraphNode| n@)
}

fn find_node(nodes: &Vec<CommunityGraphNode>, kind: EntityKind, id: &str) -> (r: Option<usize>)
    ensures
        match r {
            Some(i) => crate::model::first_match(node_keys(nodes@), is_node(kind, id@)) == Some(i as int),
            None => crate::model::first_match(node_keys(nodes@), is_node(kind, id@)) is None,
        },
        r matches Some(i) ==> i < nodes@.len(),
{
    let ghost keys = node_keys(nodes@);
    let mut i: usize = 0;
    while i < nodes.len()
        invariant
            i <= nodes.len(),
            keys == node_keys(nodes@),
            forall|j: int| 0 <= j < i ==> !is_node(kind, id@)(#[trigger] keys[j]),
        decreases nodes.len() - i,
    {
        if nodes[i].kind == kind && str_equal(nodes[i].logical_id.as_str(), id) {
            proof {
                crate::model::lemma_first_match_scan(keys, is_node(kind, id@), i as int);
            }
            return Some(i);
        }
        assert(!is_node(kind, id@)(keys[i as int]));
        i = i + 1;
    }
    proof {
        crate::model::lemma_first_match_scan(keys, is_node(kind, id@), i as int);
    }
    None
}

fn offer(nodes: &mut Vec<CommunityGraphNode>, kind: EntityKind, id: &String, name: &String)
    ensures
        node_keys(final(nodes)@) == first_offers_step(node_keys(old(nodes)@), (kind, id@, name@)),
{
    if find_node(nodes, kind, id.as_str()).is_none() {
        let ghost before = nodes@;
        nodes.push(CommunityGraphNode { kind, logical_id: id.clone(), display_name: name.clone() });
        assert(node_keys(nodes@) =~= node_keys(before).push((kind, id@, name@)));
    }
}

/// One step of [`first_offers`]: keep `k` unless its `(kind, id)` is in.
pub open spec fn first_offers_step(r: Seq<NodeKey>, k: NodeKey) -> Seq<NodeKey> {
    if crate::model::first_match(r, is_node(k.0, k.1)) is Some {
        r
    } else {
        r.push(k)
    }
}

proof fn lemma_first_offers_push(s: Seq<NodeKey>, k: NodeKey)
    ensures
        first_offers(s.push(k)) == first_offers_step(first_offers(s), k),
{
    assert(s.push(k).drop_last() =~= s);
}

/// The nodes and links of the community graph of an ontology: every
/// node type, edge type and concept once (at its first offer), and each
/// edge type linked to its endpoint node types.
pub fn ontology_topology(ir: &OntologyIR) -> (r: GraphTopology)
    ensures
        node_keys(r.nodes@) == first_offers(offered(ir@)),
        r.links@ == links_of(first_offers(offered(ir@)), ir@.edge_types),
        r.concept_links@ == node_concept_links(first_offers(offered(ir@)), ir@.node_types) + edge_concept_links(
            first_offers(offered(ir@)),
            ir@.edge_types,
        ),
        r.term_links@ == term_links_of(first_offers(offered(ir@)), ir@.registries.glossary_terms),
{
    let ghost all = offered(ir@);
    let ghost nn = ir@.node_types.len();
    let ghost ne = ir@.edge_types.len();
    let ghost nc = ir@.registries.concepts.len();
    let mut nodes: Vec<CommunityGraphNode> = Vec::new();
    assert(all.take(0) =~= Seq::<NodeKey>::empty());
    let mut i: usize = 0;
    while i < ir.node_types.len()
        invariant
            i <= nn,
            nn == ir.node_types@.len(),
            all == offered(ir@),
            node_keys(nodes@) == first_offers(all.take(i as int)),
        decreases ir.node_types.len() - i,
    {
        let nt = &ir.node_types[i];
        proof {
            assert(all[i as int] == (EntityKind::NodeType, nt.id@, nt.label@));
            assert(all.take(i + 1) =~= all.take(i as int).push(all[i as int]));
            lemma_first_offers_push(all.take(i as int), all[i as int]);
        }
        offer(&mut nodes, EntityKind::NodeType, &nt.id, &nt.label);
        i = i + 1;
    }
    let mut j: usize = 0;
    while j < ir.edge_types.len()
        invariant
            j <= ne,
            nn == ir.node_types@.len(),
            ne == ir.edge_types@.len(),
            all == offered(ir@),
            node_keys(nodes@) == first_offers(all.take(nn + j)),
        decreases ir.edge_types.len() - j,
    {
        let et = &ir.edge_types[j];
        proof {
            assert(all[nn + j] == (EntityKind::EdgeType, et.id@, et.label@));
            assert(all.take(nn + j + 1) =~= all.take(nn + j).push(all[nn + j]));
            lemma_first_offers_push(all.take(nn + j), all[nn + j]);
        }
        offer(&mut nodes, EntityKind::EdgeType, &et.id, &et.label);
        j = j + 1;
    }
    let mut k: usize = 0;
    while k < ir.registries.concepts.len()
        invariant
            k <= ir@.registries.concepts.len(),
            nn == ir.node_types@.len(),
            ne == ir.edge_types@.len(),
            all == offered(ir@),
            node_keys(nodes@) == first_offers(all.take(nn + ne + k)),
        decreases ir.registries.concepts.len() - k,
    {
        let c = &ir.registries.concepts[k];
        proof {
            assert(all[nn + ne + k] == (EntityKind::Concept, c.id@, c.canonical_term_id@));
            assert(all.take(nn + ne + k + 1) =~= all.take(nn + ne + k).push(all[nn + ne + k]));
            lemma_first_offers_push(all.take(nn + ne + k), all[nn + ne + k]);
        }
        offer(&mut nodes, EntityKind::Concept, &c.id, &c.canonical_term_id);
        k = k + 1;
    }
    let terms = &ir.registries.glossary_terms;
    let mut k: usize = 0;
    while k < terms.len()
        invariant
            k <= terms@.len(),
            ir@.registries.glossary_terms == crate::model::models(terms@),
            nn == ir.node_types@.len(),
            ne == ir.edge_types@.len(),
            nc == ir@.registries.concepts.len(),
            all == offered(ir@),
            node_keys(nodes@) == first_offers(all.take(nn + ne + nc + k)),
        decreases terms.len() - k,
    {
        let t = &terms[k];
        proof {
            assert(ir@.registries.glossary_terms[k as int] == t@);
            assert(all[nn + ne + nc + k] == (EntityKind::GlossaryTerm, t.id@, t.term.en@));
            assert(all.take(nn + ne + nc + k + 1) =~= all.take(nn + ne + nc + k).push(all[nn + ne + nc + k]));
            lemma_first_offers_push(all.take(nn + ne + nc + k), all[nn + ne + nc + k]);
        }
        offer(&mut nodes, EntityKind::GlossaryTerm, &t.id, &t.term.en);
        k = k + 1;
    }
    assert(all.take(all.len() as int) =~= all);
    let ghost keys = node_keys(nodes@);
    let mut links: Vec<(usize, usize)> = Vec::new();
    let mut e: usize = 0;
    assert(ir@.edge_types.take(0) =~= Seq::<crate::ir::EdgeModel>::empty());
    while e < ir.edge_types.len()
        invariant
            e <= ne,
            ne == ir.edge_types@.len(),
            keys == node_keys(nodes@),
            links@ == links_of(keys, ir@.edge_types.take(e as int)),
        decreases ir.edge_types.len() - e,
    {
        let et = &ir.edge_types[e];
        assert(ir@.edge_types.take(e + 1).drop_last() =~= ir@.edge_types.take(e as int));
        assert(ir@.edge_types.take(e + 1).last() == et@);
        match find_node(&nodes, EntityKind::EdgeType, et.id.as_str()) {
            Some(ei) => {
                let ghost before = links@;
                if let Some(s) = find_node(&nodes, EntityKind::NodeType, et.source_node_id.as_str()) {
                    links.push((ei, s));
                }
                if let Some(t) = find_node(&nodes, EntityKind::NodeType, et.target_node_id.as_str()) {
                    links.push((ei, t));
                }
                assert(links@ =~= before + endpoint_links(keys, ei as int, et.source_node_id@, et.target_node_id@));
            },
            None => {
                assert(links@ =~= links@ + Seq::<(usize, usize)>::empty());
            },
        }
        e = e + 1;
    }
    assert(ir@.edge_types.take(ne as int) =~= ir@.edge_types);
    let mut concept_links: Vec<(usize, usize)> = Vec::new();
    let mut i: usize = 0;
    assert(ir@.node_types.take(0) =~= Seq::<crate::ir::NodeModel>::empty());
    while i < ir.node_types.len()
        invariant
            i <= nn,
            nn == ir.node_types@.len(),
            keys == node_keys(nodes@),
            concept_links@ == node_concept_links(keys, ir@.node_types.take(i as int)),
        decreases ir.node_types.len() - i,
    {
        let nt = &ir.node_types[i];
        assert(ir@.node_types.take(i + 1).drop_last() =~= ir@.node_types.take(i as int));
        assert(ir@.node_types.take(i + 1).last() == nt@);
        link_to_concept(&nodes, EntityKind::NodeType, nt.id.as_str(), &nt.concept_id, &mut concept_links);
        i = i + 1;
    }
    assert(ir@.node_types.take(nn as int) =~= ir@.node_types);
    let ghost from_nodes = concept_links@;
    let mut e: usize = 0;
    assert(ir@.edge_types.take(0) =~= Seq::<crate::ir::EdgeModel>::empty());
    while e < ir.edge_types.len()
        invariant
            e <= ne,
            ne == ir.edge_types@.len(),
            keys == node_keys(nodes@),
            concept_links@ == from_nodes + edge_concept_links(keys, ir@.edge_types.take(e as int)),
        decreases ir.edge_types.len() - e,
    {
        let et = &ir.edge_types[e];
        assert(ir@.edge_types.take(e + 1).drop_last() =~= ir@.edge_types.take(e as int));
        assert(ir@.edge_types.take(e + 1).last() == et@);
        let ghost before = concept_links@;
        link_to_concept(&nodes, EntityKind::EdgeType, et.id.as_str(), &et.concept_id, &mut concept_links);
        assert(concept_links@ =~= from_nodes + edge_concept_links(keys, ir@.edge_types.take(e + 1)));
        e = e + 1;
    }
    assert(ir@.edge_types.take(ne as int) =~= ir@.edge_types);
    let ghost ts = ir@.registries.glossary_terms;
    let mut term_links: Vec<(usize, usize)> = Vec::new();
    let mut k: usize = 0;
    assert(ts.take(0) =~= Seq::<crate::glossary::GlossaryTermModel>::empty());
    while k < terms.len()
        invariant
            k <= terms@.len(),
            ts == crate::model::models(terms@),
            keys == node_keys(nodes@),
            term_links@ == term_links_of(keys, ts.take(k as int)),
        decreases terms.len() - k,
    {
        let t = &terms[k];
        assert(ts.take(k + 1).drop_last() =~= ts.take(k as int));
        assert(ts.take(k + 1).last() == t@);
        let ghost before = term_links@;
        if let Some(a) = find_node(&nodes, EntityKind::GlossaryTerm, t.id.as_str()) {
            if let Some(c) = &t.concept_id {
                if let Some(b) = find_node(&nodes, EntityKind::Concept, c.as_str()) {
                    term_links.push((a, b));
                }
            }
        }
        assert(term_links@ =~= before + term_link(keys, t@));
        k = k + 1;
    }
    assert(ts.take(ts.len() as int) =~= ts);
    GraphTopology { nodes, links, concept_links, term_links }
}


/// Every link joins an edge-type node to a node-type node of the graph,
/// so no link is a self-loop.
pub proof fn lemma_links_join_edge_and_node_types(nodes: Seq<NodeKey>, es: Seq<crate::ir::EdgeModel>)
    requires
        nodes.len() <= usize::MAX,
    ensures
        forall|i: int|
            0 <= i < links_of(nodes, es).len() ==> {
                let (a, b) = #[trigger] links_of(nodes, es)[i];
                &&& a < nodes.len()
                &&& b < nodes.len()
                &&& nodes[a as int].0 == EntityKind::EdgeType
                &&& nodes[b as int].0 == EntityKind::NodeType
                &&& a != b
            },
    decreases es.len(),
{
    if es.len() > 0 {
        lemma_links_join_edge_and_node_types(nodes, es.drop_last());
        let last = es.last();
        crate::model::lemma_first_match_props(nodes, is_node(EntityKind::EdgeType, last.id));
        crate::model::lemma_first_match_props(nodes, is_node(EntityKind::NodeType, last.source_node_id));
        crate::model::lemma_first_match_props(nodes, is_node(EntityKind::NodeType, last.target_node_id));
        let prev = links_of(nodes, es.drop_last());
        let all = links_of(nodes, es);
        assert forall|i: int| 0 <= i < all.len() implies {
            let (a, b) = #[trigger] all[i];
            &&& a < nodes.len()
            &&& b < nodes.len()
            &&& nodes[a as int].0 == EntityKind::EdgeType
            &&& nodes[b as int].0 == EntityKind::NodeType
            &&& a != b
        } by {
            if i < prev.len() {
                assert(all[i] == prev[i]);
            } else {
                let e = crate::model::first_match(nodes, is_node(EntityKind::EdgeType, last.id)).unwrap();
                let tail = endpoint_links(nodes, e, last.source_node_id, last.target_node_id);
                assert(all =~= prev + tail);
                assert(all[i] == tail[i - prev.len()]);
            }
        }
    }
}

/// Every term link joins a glossary-term node to a concept node of the
/// graph, so no term link is a self-loop.
pub proof fn lemma_term_links_join_terms_and_concepts(
    nodes: Seq<NodeKey>,
    ts: Seq<crate::glossary::GlossaryTermModel>,
)
    requires
        nodes.len() <= usize::MAX,
    ensures
        forall|i: int|
            0 <= i < term_links_of(nodes, ts).len() ==> {
                let (a, b) = #[trigger] term_links_of(nodes, ts)[i];
                &&& a < nodes.len()
                &&& b < nodes.len()
                &&& nodes[a as int].0 == EntityKind::GlossaryTerm
                &&& nodes[b as int].0 == EntityKind::Concept
                &&& a != b
            },
    decreases ts.len(),
{
    if ts.len() > 0 {
        lemma_term_links_join_terms_and_concepts(nodes, ts.drop_last());
        let last = ts.last();
        let prev = term_links_of(nodes, ts.drop_last());
        let tail = term_link(nodes, last);
        crate::model::lemma_first_match_props(nodes, is_node(EntityKind::GlossaryTerm, last.id));
        if let Some(c) = last.concept_id {
            crate::model::lemma_first_match_props(nodes, is_node(EntityKind::Concept, c));
        }
        let all = term_links_of(nodes, ts);
        assert(all =~= prev + tail);
        assert forall|i: int| 0 <= i < all.len() implies {
            let (a, b) = #[trigger] all[i];
            &&& a < nodes.len()
            &&& b < nodes.len()
            &&& nodes[a as int].0 == EntityKind::GlossaryTerm
            &&& nodes[b as int].0 == EntityKind::Concept
            &&& a != b
        } by {
            if i < prev.len() {
                assert(all[i] == prev[i]);
            } else {
                assert(all[i] == tail[i - prev.len()]);
            }
        }
    }
}

} // verus!
