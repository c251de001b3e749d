//! Retracting tables of a source from an ontology.
//!
//! Dropping tables of a source means deleting every object mapping that
//! reads one of them, every node type left with no other object mapping,
//! and every edge type whose link mappings all touch a dropped table.
//! [`build_retract_source_batch`] computes those deletes as one batch
//! command; it reads the ontology and changes nothing. Properties,
//! constraints and indexes of a deleted type go with it through the
//! type's own delete command.

use vstd::prelude::*;

use crate::command::OntologyCommand;
use crate::ir::{
    EdgeModel, LinkMappingDef, LinkMappingModel, NodeModel, ObjectMappingDef, ObjectMappingModel,
    OntologyIR, OntologyModel,
};
use crate::model::{contains_text, copy_texts, models, texts};
use crate::text::{dedup_adjacent, dedup_texts, join_texts, joined, sort_texts, sorted_texts, str_equal};
use vstd::string::StringExecFns;

verus! {

/// One delete of a retraction.
pub enum Retraction {
    ObjectMapping(Seq<char>),
    Node(Seq<char>),
    Edge(Seq<char>),
}

/// The delete a command performs, where it is one of the three deletes
/// a retraction emits.
pub open spec fn as_retraction(c: OntologyCommand) -> Option<Retraction> {
    match c {
        OntologyCommand::DeleteObjectMapping { id } => Some(Retraction::ObjectMapping(id@)),
        OntologyCommand::DeleteNode { node_id } => Some(Retraction::Node(node_id@)),
        OntologyCommand::DeleteEdge { edge_id } => Some(Retraction::Edge(edge_id@)),
        _ => None,
    }
}

/// A relation of a source is dropped: the source is `src` and the
/// relation is one of `drops`.
pub open spec fn drops_relation(
    src: Seq<char>,
    drops: Seq<Seq<char>>,
    source: Seq<char>,
    relation: Seq<char>,
) -> bool {
    source == src && drops.contains(relation)
}

/// An object mapping reads a dropped relation.
pub open spec fn mapping_dropped(src: Seq<char>, drops: Seq<Seq<char>>, om: ObjectMappingModel) -> bool {
    drops_relation(src, drops, om.source_id, om.relation)
}

/// A link mapping has an endpoint on a dropped relation.
pub open spec fn link_touches(src: Seq<char>, drops: Seq<Seq<char>>, lm: LinkMappingModel) -> bool {
    drops_relation(src, drops, lm.source_endpoint.0, lm.source_endpoint.1) || drops_relation(
        src,
        drops,
        lm.target_endpoint.0,
        lm.target_endpoint.1,
    )
}

/// `id` is the id of some dropped object mapping.
pub open spec fn dropped_mapping_id(
    oms: Seq<ObjectMappingModel>,
    src: Seq<char>,
    drops: Seq<Seq<char>>,
    id: Seq<char>,
) -> bool {
    exists|j: int| 0 <= j < oms.len() && mapping_dropped(src, drops, #[trigger] oms[j]) && oms[j].id == id
}

/// A dropped object mapping targets node type `nid`.
pub open spec fn node_affected(
    oms: Seq<ObjectMappingModel>,
    src: Seq<char>,
    drops: Seq<Seq<char>>,
    nid: Seq<char>,
) -> bool {
    exists|j: int|
        0 <= j < oms.len() && mapping_dropped(src, drops, #[trigger] oms[j]) && oms[j].node_type_id == nid
}

/// Node type `nid` keeps an object mapping whose id is not dropped.
pub open spec fn node_still_bound(
    oms: Seq<ObjectMappingModel>,
    src: Seq<char>,
    drops: Seq<Seq<char>>,
    nid: Seq<char>,
) -> bool {
    exists|j: int|
        0 <= j < oms.len() && (#[trigger] oms[j]).node_type_id == nid && !dropped_mapping_id(
            oms,
            src,
            drops,
            oms[j].id,
        )
}

/// A link mapping of edge type `eid` touches a dropped relation.
pub open spec fn edge_affected(
    lms: Seq<LinkMappingModel>,
    src: Seq<char>,
    drops: Seq<Seq<char>>,
    eid: Seq<char>,
) -> bool {
    exists|j: int| 0 <= j < lms.len() && link_touches(src, drops, #[trigger] lms[j]) && lms[j].edge_type_id == eid
}

/// Edge type `eid` keeps a link mapping that touches no dropped relation.
pub open spec fn edge_still_bound(
    lms: Seq<LinkMappingModel>,
    src: Seq<char>,
    drops: Seq<Seq<char>>,
    eid: Seq<char>,
) -> bool {
    exists|j: int|
        0 <= j < lms.len() && (#[trigger] lms[j]).edge_type_id == eid && !link_touches(src, drops, lms[j])
}

/// Delete of each dropped object mapping.
pub open spec fn mapping_retraction(src: Seq<char>, drops: Seq<Seq<char>>) -> spec_fn(ObjectMappingModel) -> Option<Retraction> {
    |om: ObjectMappingModel|
        if mapping_dropped(src, drops, om) {
            Some(Retraction::ObjectMapping(om.id))
        } else {
            None
        }
}

/// Delete of each node type whose object mappings were all dropped.
pub open spec fn node_retraction(m: OntologyModel, src: Seq<char>, drops: Seq<Seq<char>>) -> spec_fn(NodeModel) -> Option<Retraction> {
    |n: NodeModel|
        if node_affected(m.object_mappings, src, drops, n.id) && !node_still_bound(
            m.object_mappings,
            src,
            drops,
            n.id,
        ) {
            Some(Retraction::Node(n.id))
        } else {
            None
        }
}

/// Delete of each edge type whose link mappings all touch a dropped relation.
pub open spec fn edge_retraction(m: OntologyModel, src: Seq<char>, drops: Seq<Seq<char>>) -> spec_fn(EdgeModel) -> Option<Retraction> {
    |e: EdgeModel|
        if edge_affected(m.link_mappings, src, drops, e.id) && !edge_still_bound(
            m.link_mappings,
            src,
            drops,
            e.id,
        ) {
            Some(Retraction::Edge(e.id))
        } else {
            None
        }
}

/// The deletes of a retraction, in order: object mappings, then node
/// types, then edge types, each in the ontology's order.
pub open spec fn retraction_plan(m: OntologyModel, src: Seq<char>, drops: Seq<Seq<char>>) -> Seq<Retraction> {
    m.object_mappings.filter_map(mapping_retraction(src, drops)) + m.node_types.filter_map(
        node_retraction(m, src, drops),
    ) + m.edge_types.filter_map(edge_retraction(m, src, drops))
}

/// The batch description: the source and its dropped tables, in text
/// order, each once.
pub open spec fn retraction_description(src: Seq<char>, drops: Seq<Seq<char>>) -> Seq<char> {
    "Retract source '"@ + src + "' tables: "@ + joined(dedup_adjacent(sorted_texts(drops)), ", "@)
}

/// `cmds` performs exactly the deletes of `plan`, in order.
pub open spec fn performs(cmds: Seq<OntologyCommand>, plan: Seq<Retraction>) -> bool {
    &&& cmds.len() == plan.len()
    &&& forall|i: int| 0 <= i < cmds.len() ==> as_retraction(#[trigger] cmds[i]) == Some(plan[i])
}

fn mapping_is_dropped(om: &ObjectMappingDef, src: &str, drops: &Vec<String>) -> (r: bool)
    ensures
        r == mapping_dropped(src@, texts(drops@), om@),
{
    str_equal(om.source_id.as_str(), src) && contains_text(drops, om.relation.as_str())
}

fn endpoint_touches_drop(src: &str, drops: &Vec<String>, endpoint_source: &str, endpoint_relation: &str) -> (r: bool)
    ensures
        r == drops_relation(src@, texts(drops@), endpoint_source@, endpoint_relation@),
{
    str_equal(endpoint_source, src) && contains_text(drops, endpoint_relation)
}

fn link_is_touched(lm: &LinkMappingDef, src: &str, drops: &Vec<String>) -> (r: bool)
    ensures
        r == link_touches(src@, texts(drops@), lm@),
{
    endpoint_touches_drop(src, drops, lm.source_endpoint.source_id.as_str(), lm.source_endpoint.relation.as_str())
        || endpoint_touches_drop(
        src,
        drops,
        lm.target_endpoint.source_id.as_str(),
        lm.target_endpoint.relation.as_str(),
    )
}

fn is_dropped_mapping_id(oms: &Vec<ObjectMappingDef>, src: &str, drops: &Vec<String>, id: &str) -> (r: bool)
    ensures
        r == dropped_mapping_id(models(oms@), src@, texts(drops@), id@),
{
    let ghost ms = models(oms@);
    let mut i: usize = 0;
    while i < oms.len()
        invariant
            i <= oms.len(),
            ms == models(oms@),
            forall|j: int| 0 <= j < i ==> !(mapping_dropped(src@, texts(drops@), #[trigger] ms[j]) && ms[j].id == id@),
        decreases oms.len() - i,
    {
        if mapping_is_dropped(&oms[i], src, drops) && str_equal(oms[i].id.as_str(), id) {
            assert(mapping_dropped(src@, texts(drops@), ms[i as int]) && ms[i as int].id == id@);
            return true;
        }
        i = i + 1;
    }
    false
}

fn is_node_affected(oms: &Vec<ObjectMappingDef>, src: &str, drops: &Vec<String>, nid: &str) -> (r: bool)
    ensures
        r == node_affected(models(oms@), src@, texts(drops@), nid@),
{
    let ghost ms = models(oms@);
    let mut i: usize = 0;
    while i < oms.len()
        invariant
            i <= oms.len(),
            ms == models(oms@),
            forall|j: int|
                0 <= j < i ==> !(mapping_dropped(src@, texts(drops@), #[trigger] ms[j]) && ms[j].node_type_id
                    == nid@),
        decreases oms.len() - i,
    {
        if mapping_is_dropped(&oms[i], src, drops) && str_equal(oms[i].node_type_id.as_str(), nid) {
            assert(mapping_dropped(src@, texts(drops@), ms[i as int]) && ms[i as int].node_type_id == nid@);
            return true;
        }
        i = i + 1;
    }
    false
}

fn is_node_still_bound(oms: &Vec<ObjectMappingDef>, src: &str, drops: &Vec<String>, nid: &str) -> (r: bool)
    ensures
        r == node_still_bound(models(oms@), src@, texts(drops@), nid@),
{
    let ghost ms = models(oms@);
    let mut i: usize = 0;
    while i < oms.len()
        invariant
            i <= oms.len(),
            ms == models(oms@),
            forall|j: int|
                0 <= j < i ==> !((#[trigger] ms[j]).node_type_id == nid@ && !dropped_mapping_id(
                    ms,
                    src@,
                    texts(drops@),
                    ms[j].id,
                )),
        decreases oms.len() - i,
    {
        if str_equal(oms[i].node_type_id.as_str(), nid) && !is_dropped_mapping_id(
            oms,
            src,
            drops,
            oms[i].id.as_str(),
        ) {
            assert(ms[i as int].node_type_id == nid@);
            return true;
        }
        i = i + 1;
    }
    false
}

fn is_edge_affected(lms: &Vec<LinkMappingDef>, src: &str, drops: &Vec<String>, eid: &str) -> (r: bool)
    ensures
        r == edge_affected(models(lms@), src@, texts(drops@), eid@),
{
    let ghost ls = models(lms@);
    let mut i: usize = 0;
    while i < lms.len()
        invariant
            i <= lms.len(),
            ls == models(lms@),
            forall|j: int|
                0 <= j < i ==> !(link_touches(src@, texts(drops@), #[trigger] ls[j]) && ls[j].edge_type_id
                    == eid@),
        decreases lms.len() - i,
    {
        if link_is_touched(&lms[i], src, drops) && str_equal(lms[i].edge_type_id.as_str(), eid) {
            assert(link_touches(src@, texts(drops@), ls[i as int]) && ls[i as int].edge_type_id == eid@);
            return true;
        }
        i = i + 1;
    }
    false
}

fn is_edge_still_bound(lms: &Vec<LinkMappingDef>, src: &str, drops: &Vec<String>, eid: &str) -> (r: bool)
    ensures
        r == edge_still_bound(models(lms@), src@, texts(drops@), eid@),
{
    let ghost ls = models(lms@);
    let mut i: usize = 0;
    while i < lms.len()
        invariant
            i <= lms.len(),
            ls == models(lms@),
            forall|j: int|
                0 <= j < i ==> !((#[trigger] ls[j]).edge_type_id == eid@ && !link_touches(
                    src@,
                    texts(drops@),
                    ls[j],
                )),
        decreases lms.len() - i,
    {
        if str_equal(lms[i].edge_type_id.as_str(), eid) && !link_is_touched(&lms[i], src, drops) {
            assert(ls[i as int].edge_type_id == eid@);
            return true;
        }
        i = i + 1;
    }
    false
}

/// The batch that deletes every reference of `ontology` to the tables
/// `drop_tables` of source `source_id`: the object mappings that read
/// them, the node types left with no other object mapping, and the edge
/// types left with no link mapping clear of them. The batch is empty
/// when nothing refers to those tables.
pub fn build_retract_source_batch(
    ontology: &OntologyIR,
    source_id: &str,
    drop_tables: &Vec<String>,
) -> (r: OntologyCommand)
    ensures
        r matches OntologyCommand::Batch { description, commands } && description@
            == retraction_description(source_id@, texts(drop_tables@)) && performs(
            commands@,
            retraction_plan(ontology@, source_id@, texts(drop_tables@)),
        ),
{
    let ghost m = ontology@;
    let ghost src = source_id@;
    let ghost drops = texts(drop_tables@);
    let mut commands: Vec<OntologyCommand> = Vec::new();

    let ghost oms = m.object_mappings;
    let ghost f1 = mapping_retraction(src, drops);
    let mut i: usize = 0;
    assert(oms.take(0) =~= Seq::<ObjectMappingModel>::empty());
    while i < ontology.object_mappings.len()
        invariant
            i <= ontology.object_mappings.len(),
            m == ontology@,
            src == source_id@,
            drops == texts(drop_tables@),
            oms == m.object_mappings,
            f1 == mapping_retraction(src, drops),
            performs(commands@, oms.take(i as int).filter_map(f1)),
        decreases ontology.object_mappings.len() - i,
    {
        let ghost before = commands@;
        assert(oms.take(i + 1).drop_last() =~= oms.take(i as int));
        assert(oms.take(i + 1).last() == ontology.object_mappings@[i as int]@);
        let om = &ontology.object_mappings[i];
        if mapping_is_dropped(om, source_id, drop_tables) {
            commands.push(OntologyCommand::DeleteObjectMapping { id: om.id.clone() });
            assert(commands@ =~= before.push(commands@.last()));
        }
        i = i + 1;
    }
    assert(oms.take(oms.len() as int) =~= oms);
    let ghost part1 = oms.filter_map(f1);

    let ghost nodes = m.node_types;
    let ghost f3 = node_retraction(m, src, drops);
    let mut k: usize = 0;
    assert(nodes.take(0) =~= Seq::<NodeModel>::empty());
    assert(part1 + nodes.take(0).filter_map(f3) =~= part1);
    while k < ontology.node_types.len()
        invariant
            k <= ontology.node_types.len(),
            m == ontology@,
            src == source_id@,
            drops == texts(drop_tables@),
            nodes == m.node_types,
            f3 == node_retraction(m, src, drops),
            performs(commands@, part1 + nodes.take(k as int).filter_map(f3)),
        decreases ontology.node_types.len() - k,
    {
        let ghost before = commands@;
        assert(nodes.take(k + 1).drop_last() =~= nodes.take(k as int));
        assert(nodes.take(k + 1).last() == ontology.node_types@[k as int]@);
        let nid = ontology.node_types[k].id.as_str();
        if is_node_affected(&ontology.object_mappings, source_id, drop_tables, nid) && !is_node_still_bound(
            &ontology.object_mappings,
            source_id,
            drop_tables,
            nid,
        ) {
            commands.push(OntologyCommand::DeleteNode { node_id: ontology.node_types[k].id.clone() });
            assert(commands@ =~= before.push(commands@.last()));
            assert(part1 + nodes.take(k + 1).filter_map(f3) =~= (part1 + nodes.take(
                k as int,
            ).filter_map(f3)).push(Retraction::Node(nid@)));
        } else {
            assert(part1 + nodes.take(k + 1).filter_map(f3) =~= part1 + nodes.take(k as int).filter_map(
                f3,
            ));
        }
        k = k + 1;
    }
    assert(nodes.take(nodes.len() as int) =~= nodes);
    let ghost part2 = part1 + nodes.filter_map(f3);

    let ghost edges = m.edge_types;
    let ghost f4 = edge_retraction(m, src, drops);
    let mut e: usize = 0;
    assert(edges.take(0) =~= Seq::<EdgeModel>::empty());
    assert(part2 + edges.take(0).filter_map(f4) =~= part2);
    while e < ontology.edge_types.len()
        invariant
            e <= ontology.edge_types.len(),
            m == ontology@,
            src == source_id@,
            drops == texts(drop_tables@),
            edges == m.edge_types,
            f4 == edge_retraction(m, src, drops),
            performs(commands@, part2 + edges.take(e as int).filter_map(f4)),
        decreases ontology.edge_types.len() - e,
    {
        let ghost before = commands@;
        assert(edges.take(e + 1).drop_last() =~= edges.take(e as int));
        assert(edges.take(e + 1).last() == ontology.edge_types@[e as int]@);
        let eid = ontology.edge_types[e].id.as_str();
        if is_edge_affected(&ontology.link_mappings, source_id, drop_tables, eid) && !is_edge_still_bound(
            &ontology.link_mappings,
            source_id,
            drop_tables,
            eid,
        ) {
            commands.push(OntologyCommand::DeleteEdge { edge_id: ontology.edge_types[e].id.clone() });
            assert(commands@ =~= before.push(commands@.last()));
            assert(part2 + edges.take(e + 1).filter_map(f4) =~= (part2 + edges.take(
                e as int,
            ).filter_map(f4)).push(Retraction::Edge(eid@)));
        } else {
            assert(part2 + edges.take(e + 1).filter_map(f4) =~= part2 + edges.take(e as int).filter_map(
                f4,
            ));
        }
        e = e + 1;
    }
    assert(edges.take(edges.len() as int) =~= edges);

    let tables = dedup_texts(sort_texts(copy_texts(drop_tables)));
    let listed = join_texts(&tables, ", ");
    let mut description = String::from_str("Retract source '");
    description.append(source_id);
    description.append("' tables: ");
    description.append(listed.as_str());
    proof {
        reveal_strlit("Retract source '");
        reveal_strlit("' tables: ");
        reveal_strlit(", ");
    }
    OntologyCommand::Batch { description, commands }
}

/// With no object mapping reading a dropped table and no link mapping
/// touching one, a retraction deletes nothing.
pub proof fn lemma_retraction_empty_without_references(m: OntologyModel, src: Seq<char>, drops: Seq<Seq<char>>)
    requires
        forall|j: int| 0 <= j < m.object_mappings.len() ==> !mapping_dropped(src, drops, #[trigger] m.object_mappings[j]),
        forall|j: int| 0 <= j < m.link_mappings.len() ==> !link_touches(src, drops, #[trigger] m.link_mappings[j]),
    ensures
        retraction_plan(m, src, drops).len() == 0,
{
    lemma_filter_map_none(m.object_mappings, mapping_retraction(src, drops));
    lemma_filter_map_none(m.node_types, node_retraction(m, src, drops));
    lemma_filter_map_none(m.edge_types, edge_retraction(m, src, drops));
}

/// A `filter_map` whose function gives `None` everywhere is empty.
proof fn lemma_filter_map_none<A, B>(s: Seq<A>, f: spec_fn(A) -> Option<B>)
    requires
        forall|j: int| 0 <= j < s.len() ==> f(#[trigger] s[j]) is None,
    ensures
        s.filter_map(f).len() == 0,
    decreases s.len(),
{
    if s.len() > 0 {
        assert(f(s[s.len() - 1]) is None);
        lemma_filter_map_none(s.drop_last(), f);
    }
}

/// The deletes of a retraction depend on the dropped tables only as a
/// set: listing them in another order, or more than once, changes nothing.
pub proof fn lemma_retraction_plan_set_only(
    m: OntologyModel,
    src: Seq<char>,
    d1: Seq<Seq<char>>,
    d2: Seq<Seq<char>>,
)
    requires
        d1.to_set() == d2.to_set(),
    ensures
        retraction_plan(m, src, d1) == retraction_plan(m, src, d2),
{
    assert forall|t: Seq<char>| d1.contains(t) == d2.contains(t) by {
        assert(d1.to_set().contains(t) == d1.contains(t));
        assert(d2.to_set().contains(t) == d2.contains(t));
    }
    assert(mapping_retraction(src, d1) =~= mapping_retraction(src, d2));
    assert forall|nid: Seq<char>|
        node_affected(m.object_mappings, src, d1, nid) == node_affected(m.object_mappings, src, d2, nid)
            && node_still_bound(m.object_mappings, src, d1, nid) == node_still_bound(
            m.object_mappings,
            src,
            d2,
            nid,
        ) by {
        assert forall|id: Seq<char>|
            dropped_mapping_id(m.object_mappings, src, d1, id) == dropped_mapping_id(
                m.object_mappings,
                src,
                d2,
                id,
            ) by {}
    }
    assert(node_retraction(m, src, d1) =~= node_retraction(m, src, d2));
    assert(edge_retraction(m, src, d1) =~= edge_retraction(m, src, d2));
}

/// The same source and the same set of tables always give the same
/// batch: its description and its deletes depend on the tables only as
/// a set.
pub proof fn lemma_retraction_deterministic(
    m: OntologyModel,
    src: Seq<char>,
    d1: Seq<Seq<char>>,
    d2: Seq<Seq<char>>,
)
    requires
        d1.to_set() == d2.to_set(),
    ensures
        retraction_plan(m, src, d1) == retraction_plan(m, src, d2),
        retraction_description(src, d1) == retraction_description(src, d2),
{
    lemma_retraction_plan_set_only(m, src, d1, d2);
    crate::text::lemma_sorted_unique_texts_set_only(d1, d2);
}

/// An element is in a `filter_map` exactly when the function maps some
/// element of the sequence to it.
proof fn lemma_filter_map_contains<A, B>(s: Seq<A>, f: spec_fn(A) -> Option<B>, y: B)
    ensures
        s.filter_map(f).contains(y) <==> exists|i: int| 0 <= i < s.len() && f(#[trigger] s[i]) == Some(y),
    decreases s.len(),
{
    if s.len() > 0 {
        let rest = s.drop_last();
        lemma_filter_map_contains(rest, f, y);
        let fr = rest.filter_map(f);
        match f(s.last()) {
            Some(z) => {
                let all = fr + seq![z];
                assert(s.filter_map(f) == all);
                if all.contains(y) {
                    let k = choose|k: int| 0 <= k < all.len() && all[k] == y;
                    if k < fr.len() {
                        assert(fr[k] == y);
                        assert(fr.contains(y));
                        let i = choose|i: int| 0 <= i < rest.len() && f(#[trigger] rest[i]) == Some(y);
                        assert(s[i] == rest[i]);
                    } else {
                        assert(f(s[s.len() - 1]) == Some(y));
                    }
                }
                if exists|i: int| 0 <= i < s.len() && f(#[trigger] s[i]) == Some(y) {
                    let i = choose|i: int| 0 <= i < s.len() && f(#[trigger] s[i]) == Some(y);
                    if i < s.len() - 1 {
                        assert(rest[i] == s[i]);
                        assert(fr.contains(y));
                        let k = choose|k: int| 0 <= k < fr.len() && fr[k] == y;
                        assert(all[k] == y);
                    } else {
                        assert(all[fr.len() as int] == y);
                    }
                }
            },
            None => {
                if exists|i: int| 0 <= i < s.len() && f(#[trigger] s[i]) == Some(y) {
                    let i = choose|i: int| 0 <= i < s.len() && f(#[trigger] s[i]) == Some(y);
                    assert(i < s.len() - 1);
                    assert(rest[i] == s[i]);
                }
                if fr.contains(y) {
                    let i = choose|i: int| 0 <= i < rest.len() && f(#[trigger] rest[i]) == Some(y);
                    assert(s[i] == rest[i]);
                }
            },
        }
    }
}

/// A retraction deletes edge type `eid` exactly when the ontology has an
/// edge type with that id, some link mapping of it has its source or its
/// target endpoint on a dropped table of the source, and every link
/// mapping of it does, at one end or the other.
pub proof fn lemma_retraction_deletes_edge(m: OntologyModel, src: Seq<char>, drops: Seq<Seq<char>>, eid: Seq<char>)
    ensures
        retraction_plan(m, src, drops).contains(Retraction::Edge(eid)) <==> {
            &&& exists|k: int| 0 <= k < m.edge_types.len() && (#[trigger] m.edge_types[k]).id == eid
            &&& exists|j: int|
                0 <= j < m.link_mappings.len() && (#[trigger] m.link_mappings[j]).edge_type_id == eid && (
                (m.link_mappings[j].source_endpoint.0 == src && drops.contains(m.link_mappings[j].source_endpoint.1))
                    || (m.link_mappings[j].target_endpoint.0 == src && drops.contains(
                    m.link_mappings[j].target_endpoint.1,
                )))
            &&& forall|j: int|
                0 <= j < m.link_mappings.len() && (#[trigger] m.link_mappings[j]).edge_type_id == eid ==> (
                (m.link_mappings[j].source_endpoint.0 == src && drops.contains(m.link_mappings[j].source_endpoint.1))
                    || (m.link_mappings[j].target_endpoint.0 == src && drops.contains(
                    m.link_mappings[j].target_endpoint.1,
                )))
        },
{
    let y = Retraction::Edge(eid);
    let a = m.object_mappings.filter_map(mapping_retraction(src, drops));
    let b = m.node_types.filter_map(node_retraction(m, src, drops));
    let c = m.edge_types.filter_map(edge_retraction(m, src, drops));
    lemma_filter_map_contains(m.object_mappings, mapping_retraction(src, drops), y);
    lemma_filter_map_contains(m.node_types, node_retraction(m, src, drops), y);
    lemma_filter_map_contains(m.edge_types, edge_retraction(m, src, drops), y);
    assert(!a.contains(y));
    assert(!b.contains(y));
    lemma_seq_concat_contains(a + b, c, y);
    lemma_seq_concat_contains(a, b, y);
}

proof fn lemma_seq_concat_contains<A>(a: Seq<A>, b: Seq<A>, y: A)
    ensures
        (a + b).contains(y) <==> a.contains(y) || b.contains(y),
{
    if (a + b).contains(y) {
        let k = choose|k: int| 0 <= k < (a + b).len() && (a + b)[k] == y;
        if k < a.len() {
            assert(a[k] == y);
        } else {
            assert(b[k - a.len()] == y);
        }
    }
    if a.contains(y) {
        let k = choose|k: int| 0 <= k < a.len() && a[k] == y;
        assert((a + b)[k] == y);
    }
    if b.contains(y) {
        let k = choose|k: int| 0 <= k < b.len() && b[k] == y;
        assert((a + b)[a.len() + k] == y);
    }
}

/// A retraction deletes object mapping `id` exactly when some object
/// mapping with that id reads a dropped table of the source.
pub proof fn lemma_retraction_deletes_mapping(m: OntologyModel, src: Seq<char>, drops: Seq<Seq<char>>, id: Seq<char>)
    ensures
        retraction_plan(m, src, drops).contains(Retraction::ObjectMapping(id)) <==> exists|j: int|
            0 <= j < m.object_mappings.len() && (#[trigger] m.object_mappings[j]).id == id
                && m.object_mappings[j].source_id == src && drops.contains(m.object_mappings[j].relation),
{
    let y = Retraction::ObjectMapping(id);
    let a = m.object_mappings.filter_map(mapping_retraction(src, drops));
    let b = m.node_types.filter_map(node_retraction(m, src, drops));
    let c = m.edge_types.filter_map(edge_retraction(m, src, drops));
    lemma_filter_map_contains(m.object_mappings, mapping_retraction(src, drops), y);
    lemma_filter_map_contains(m.node_types, node_retraction(m, src, drops), y);
    lemma_filter_map_contains(m.edge_types, edge_retraction(m, src, drops), y);
    assert(!b.contains(y));
    assert(!c.contains(y));
    lemma_seq_concat_contains(a + b, c, y);
    lemma_seq_concat_contains(a, b, y);
}

/// A retraction deletes node type `nid` exactly when the ontology has a
/// node type with that id, some object mapping of it reads a dropped
/// table of the source, and every object mapping of it shares its id
/// with an object mapping that reads a dropped table.
pub proof fn lemma_retraction_deletes_node(m: OntologyModel, src: Seq<char>, drops: Seq<Seq<char>>, nid: Seq<char>)
    ensures
        retraction_plan(m, src, drops).contains(Retraction::Node(nid)) <==> {
            &&& exists|k: int| 0 <= k < m.node_types.len() && (#[trigger] m.node_types[k]).id == nid
            &&& exists|j: int|
                0 <= j < m.object_mappings.len() && (#[trigger] m.object_mappings[j]).node_type_id == nid
                    && m.object_mappings[j].source_id == src && drops.contains(m.object_mappings[j].relation)
            &&& forall|j: int|
                0 <= j < m.object_mappings.len() && (#[trigger] m.object_mappings[j]).node_type_id == nid
                    ==> exists|l: int|
                    0 <= l < m.object_mappings.len() && (#[trigger] m.object_mappings[l]).id
                        == m.object_mappings[j].id && m.object_mappings[l].source_id == src && drops.contains(
                        m.object_mappings[l].relation,
                    )
        },
{
    let y = Retraction::Node(nid);
    let a = m.object_mappings.filter_map(mapping_retraction(src, drops));
    let b = m.node_types.filter_map(node_retraction(m, src, drops));
    let c = m.edge_types.filter_map(edge_retraction(m, src, drops));
    lemma_filter_map_contains(m.object_mappings, mapping_retraction(src, drops), y);
    lemma_filter_map_contains(m.node_types, node_retraction(m, src, drops), y);
    lemma_filter_map_contains(m.edge_types, edge_retraction(m, src, drops), y);
    assert(!a.contains(y));
    assert(!c.contains(y));
    lemma_seq_concat_contains(a + b, c, y);
    lemma_seq_concat_contains(a, b, y);
}

} // verus!
