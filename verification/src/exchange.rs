//! The exchange form of an ontology, for export and display.
//!
//! The exchange form names things the way an author writes them: an
//! edge type's endpoints and an index's node type by label, constraint
//! and index properties by name, and a node type's source table and its
//! properties' source columns as the object mappings give them. Ids of
//! types, properties, constraints and indexes are kept so that a
//! round trip can find them again.

use vstd::prelude::*;

use crate::ir::{
    Cardinality, ConstraintDef, ConstraintModel, EdgeModel, EdgeTypeDef, IndexDef, IndexKind,
    IndexModel, NodeConstraint, NodeConstraintKind, NodeModel, NodeTypeDef, ObjectMappingDef,
    ObjectMappingModel, OntologyIR, OntologyModel, PropertyDef, PropertyLocation, PropertyMapping,
    PropertyMappingModel, PropertyModel, PropertyType, VectorSimilarity,
};
use crate::model::{models, opt_text, texts};
use crate::text::str_equal;

verus! {

/// A property in exchange form.
#[derive(Debug, Clone, PartialEq, Eq)]
pub struct InputPropertyDef {
    pub id: Option<String>,
    pub name: String,
    pub property_type: PropertyType,
    pub nullable: bool,
    pub default_value: Option<String>,
    pub description: String,
    /// Column of the node type's source table that holds the property.
    pub source_column: Option<String>,
}

/// A node constraint in exchange form, over property names.
#[derive(Debug, Clone, PartialEq, Eq)]
pub enum InputNodeConstraint {
    Unique { id: Option<String>, properties: Vec<String> },
    Exists { id: Option<String>, property: String },
    NodeKey { id: Option<String>, properties: Vec<String> },
}

/// A node type in exchange form.
#[derive(Debug, Clone, PartialEq, Eq)]
pub struct InputNodeTypeDef {
    pub id: Option<String>,
    pub label: String,
    pub description: String,
    /// Relation the node type is read from.
    pub source_table: Option<String>,
    pub properties: Vec<InputPropertyDef>,
    pub constraints: Vec<InputNodeConstraint>,
}

/// An edge type in exchange form, with its endpoints by label.
#[derive(Debug, Clone, PartialEq, Eq)]
pub struct InputEdgeTypeDef {
    pub id: Option<String>,
    pub label: String,
    pub description: String,
    pub source_type: String,
    pub target_type: String,
    pub properties: Vec<InputPropertyDef>,
    pub cardinality: Cardinality,
}

/// An index in exchange form, on a node type by label and properties
/// by name.
#[derive(Debug, Clone, PartialEq, Eq)]
pub enum InputIndexDef {
    Single { id: Option<String>, label: String, property: String },
    Composite { id: Option<String>, label: String, properties: Vec<String> },
    FullText { id: Option<String>, name: String, label: String, properties: Vec<String> },
    Vector {
        id: Option<String>,
        label: String,
        property: String,
        dimensions: u32,
        similarity: VectorSimilarity,
    },
}

/// An ontology in exchange form.
#[derive(Debug, Clone, PartialEq, Eq)]
pub struct InputOntologyDef {
    pub format_version: u32,
    pub id: Option<String>,
    pub name: String,
    pub description: String,
    pub version: u32,
    pub node_types: Vec<InputNodeTypeDef>,
    pub edge_types: Vec<InputEdgeTypeDef>,
    pub indexes: Vec<InputIndexDef>,
}

/// Model of an [`InputPropertyDef`].
pub struct InputPropertyModel {
    pub id: Option<Seq<char>>,
    pub name: Seq<char>,
    pub property_type: PropertyType,
    pub nullable: bool,
    pub default_value: Option<Seq<char>>,
    pub description: Seq<char>,
    pub source_column: Option<Seq<char>>,
}

impl View for InputPropertyDef {
    type V = InputPropertyModel;

    open spec fn view(&self) -> InputPropertyModel {
        InputPropertyModel {
            id: opt_text(self.id),
            name: self.name@,
            property_type: self.property_type,
            nullable: self.nullable,
            default_value: opt_text(self.default_value),
            description: self.description@,
            source_column: opt_text(self.source_column),
        }
    }
}

/// Model of an [`InputNodeConstraint`]: kind, id and property names.
pub struct InputConstraintModel {
    pub kind: NodeConstraintKind,
    pub id: Option<Seq<char>>,
    pub properties: Seq<Seq<char>>,
}

impl View for InputNodeConstraint {
    type V = InputConstraintModel;

    open spec fn view(&self) -> InputConstraintModel {
        match self {
            InputNodeConstraint::Unique { id, properties } => InputConstraintModel {
                kind: NodeConstraintKind::Unique,
                id: opt_text(*id),
                properties: texts(properties@),
            },
            InputNodeConstraint::Exists { id, property } => InputConstraintModel {
                kind: NodeConstraintKind::Exists,
                id: opt_text(*id),
                properties: seq![property@],
            },
            InputNodeConstraint::NodeKey { id, properties } => InputConstraintModel {
                kind: NodeConstraintKind::NodeKey,
                id: opt_text(*id),
                properties: texts(properties@),
            },
        }
    }
}

/// Model of an [`InputNodeTypeDef`].
pub struct InputNodeModel {
    pub id: Option<Seq<char>>,
    pub label: Seq<char>,
    pub description: Seq<char>,
    pub source_table: Option<Seq<char>>,
    pub properties: Seq<InputPropertyModel>,
    pub constraints: Seq<InputConstraintModel>,
}

impl View for InputNodeTypeDef {
    type V = InputNodeModel;

    open spec fn view(&self) -> InputNodeModel {
        InputNodeModel {
            id: opt_text(self.id),
            label: self.label@,
            description: self.description@,
            source_table: opt_text(self.source_table),
            properties: models(self.properties@),
            constraints: models(self.constraints@),
        }
    }
}

/// Model of an [`InputEdgeTypeDef`].
pub struct InputEdgeModel {
    pub id: Option<Seq<char>>,
    pub label: Seq<char>,
    pub description: Seq<char>,
    pub source_type: Seq<char>,
    pub target_type: Seq<char>,
    pub properties: Seq<InputPropertyModel>,
    pub cardinality: Cardinality,
}

impl View for InputEdgeTypeDef {
    type V = InputEdgeModel;

    open spec fn view(&self) -> InputEdgeModel {
        InputEdgeModel {
            id: opt_text(self.id),
            label: self.label@,
            description: self.description@,
            source_type: self.source_type@,
            target_type: self.target_type@,
            properties: models(self.properties@),
            cardinality: self.cardinality,
        }
    }
}

/// Model of an [`InputIndexDef`]; fields a kind lacks are empty or zero.
pub struct InputIndexModel {
    pub kind: IndexKind,
    pub id: Option<Seq<char>>,
    pub name: Seq<char>,
    pub label: Seq<char>,
    pub properties: Seq<Seq<char>>,
    pub dimensions: u32,
    pub similarity: Option<VectorSimilarity>,
}

impl View for InputIndexDef {
    type V = InputIndexModel;

    open spec fn view(&self) -> InputIndexModel {
        match self {
            InputIndexDef::Single { id, label, property } => InputIndexModel {
                kind: IndexKind::Single,
                id: opt_text(*id),
                name: Seq::empty(),
                label: label@,
                properties: seq![property@],
                dimensions: 0,
                similarity: None,
            },
            InputIndexDef::Composite { id, label, properties } => InputIndexModel {
                kind: IndexKind::Composite,
                id: opt_text(*id),
                name: Seq::empty(),
                label: label@,
                properties: texts(properties@),
                dimensions: 0,
                similarity: None,
            },
            InputIndexDef::FullText { id, name, label, properties } => InputIndexModel {
                kind: IndexKind::FullText,
                id: opt_text(*id),
                name: name@,
                label: label@,
                properties: texts(properties@),
                dimensions: 0,
                similarity: None,
            },
            InputIndexDef::Vector { id, label, property, dimensions, similarity } => InputIndexModel {
                kind: IndexKind::Vector,
                id: opt_text(*id),
                name: Seq::empty(),
                label: label@,
                properties: seq![property@],
                dimensions: *dimensions,
                similarity: Some(*similarity),
            },
        }
    }
}

/// Model of an [`InputOntologyDef`].
pub struct InputOntologyModel {
    pub format_version: u32,
    pub id: Option<Seq<char>>,
    pub name: Seq<char>,
    pub description: Seq<char>,
    pub version: u32,
    pub node_types: Seq<InputNodeModel>,
    pub edge_types: Seq<InputEdgeModel>,
    pub indexes: Seq<InputIndexModel>,
}

impl View for InputOntologyDef {
    type V = InputOntologyModel;

    open spec fn view(&self) -> InputOntologyModel {
        InputOntologyModel {
            format_version: self.format_version,
            id: opt_text(self.id),
            name: self.name@,
            description: self.description@,
            version: self.version,
            node_types: models(self.node_types@),
            edge_types: models(self.edge_types@),
            indexes: models(self.indexes@),
        }
    }
}

// ---------------------------------------------------------------------------
// Lookups
// ---------------------------------------------------------------------------

/// Label of the last node type with id `nid`; `nid` itself when there
/// is none.
pub open spec fn node_label(ns: Seq<NodeModel>, nid: Seq<char>) -> Seq<char>
    decreases ns.len(),
{
    if ns.len() == 0 {
        nid
    } else if ns.last().id == nid {
        ns.last().label
    } else {
        node_label(ns.drop_last(), nid)
    }
}

/// Name of the last property with id `pid`.
pub open spec fn name_in_props(ps: Seq<PropertyModel>, pid: Seq<char>) -> Option<Seq<char>>
    decreases ps.len(),
{
    if ps.len() == 0 {
        None
    } else if ps.last().id == pid {
        Some(ps.last().name)
    } else {
        name_in_props(ps.drop_last(), pid)
    }
}

/// Name of the last property with id `pid` among the node types'
/// properties, in order.
pub open spec fn name_in_nodes(ns: Seq<NodeModel>, pid: Seq<char>) -> Option<Seq<char>>
    decreases ns.len(),
{
    if ns.len() == 0 {
        None
    } else {
        match name_in_props(ns.last().properties, pid) {
            Some(n) => Some(n),
            None => name_in_nodes(ns.drop_last(), pid),
        }
    }
}

/// Name of the last property with id `pid` among the edge types'
/// properties, in order.
pub open spec fn name_in_edges(es: Seq<EdgeModel>, pid: Seq<char>) -> Option<Seq<char>>
    decreases es.len(),
{
    if es.len() == 0 {
        None
    } else {
        match name_in_props(es.last().properties, pid) {
            Some(n) => Some(n),
            None => name_in_edges(es.drop_last(), pid),
        }
    }
}

/// Name of property `pid`: the last property with that id, edge types'
/// properties counting after node types'; `pid` itself when there is
/// none.
pub open spec fn property_name(m: OntologyModel, pid: Seq<char>) -> Seq<char> {
    match name_in_edges(m.edge_types, pid) {
        Some(n) => n,
        None => match name_in_nodes(m.node_types, pid) {
            Some(n) => n,
            None => pid,
        },
    }
}

/// Column of the last column location of property `pid`.
pub open spec fn column_in_mappings(pms: Seq<PropertyMappingModel>, pid: Seq<char>) -> Option<Seq<char>>
    decreases pms.len(),
{
    if pms.len() == 0 {
        None
    } else if pms.last().property_id == pid && pms.last().path is None {
        Some(pms.last().column)
    } else {
        column_in_mappings(pms.drop_last(), pid)
    }
}

/// Source column of property `pid` of node type `nid`: the last column
/// location for it in the object mappings of `nid`, in order.
pub open spec fn source_column(oms: Seq<ObjectMappingModel>, nid: Seq<char>, pid: Seq<char>) -> Option<Seq<char>>
    decreases oms.len(),
{
    if oms.len() == 0 {
        None
    } else {
        let om = oms.last();
        if om.node_type_id == nid && column_in_mappings(om.property_mappings, pid) is Some {
            column_in_mappings(om.property_mappings, pid)
        } else {
            source_column(oms.drop_last(), nid, pid)
        }
    }
}

/// The object mapping of node type `nid` with the highest precedence,
/// the last of them on a tie, as its relation and precedence.
pub open spec fn preferred_mapping(oms: Seq<ObjectMappingModel>, nid: Seq<char>) -> Option<(Seq<char>, i32)>
    decreases oms.len(),
{
    if oms.len() == 0 {
        None
    } else {
        let prev = preferred_mapping(oms.drop_last(), nid);
        let om = oms.last();
        let beats = match prev {
            Some(p) => om.precedence >= p.1,
            None => true,
        };
        if om.node_type_id == nid && beats {
            Some((om.relation, om.precedence))
        } else {
            prev
        }
    }
}

/// Source table of node type `nid`: the relation of its preferred
/// object mapping.
pub open spec fn source_table(oms: Seq<ObjectMappingModel>, nid: Seq<char>) -> Option<Seq<char>> {
    match preferred_mapping(oms, nid) {
        Some(p) => Some(p.0),
        None => None,
    }
}

fn find_node_label(nodes: &Vec<NodeTypeDef>, nid: &str) -> (r: String)
    ensures
        r@ == node_label(models(nodes@), nid@),
{
    let ghost ns = models(nodes@);
    let mut found: Option<usize> = None;
    let mut i: usize = 0;
    assert(ns.take(0) =~= Seq::<NodeModel>::empty());
    while i < nodes.len()
        invariant
            i <= nodes.len(),
            ns == models(nodes@),
            found matches Some(k) ==> k < i && node_label(ns.take(i as int), nid@) == ns[k as int].label,
            found is None ==> node_label(ns.take(i as int), nid@) == nid@,
        decreases nodes.len() - i,
    {
        assert(ns.take(i + 1).drop_last() =~= ns.take(i as int));
        assert(ns.take(i + 1).last() == nodes@[i as int]@);
        if str_equal(nodes[i].id.as_str(), nid) {
            found = Some(i);
        }
        i = i + 1;
    }
    assert(ns.take(nodes.len() as int) =~= ns);
    match found {
        Some(k) => nodes[k].label.clone(),
        None => nid.to_string(),
    }
}

fn find_name_in_props(ps: &Vec<PropertyDef>, pid: &str) -> (r: Option<usize>)
    ensures
        r matches Some(k) ==> k < ps.len() && name_in_props(models(ps@), pid@) == Some(ps@[k as int].name@),
        r is None ==> name_in_props(models(ps@), pid@) is None,
{
    let ghost s = models(ps@);
    let mut found: Option<usize> = None;
    let mut i: usize = 0;
    assert(s.take(0) =~= Seq::<PropertyModel>::empty());
    while i < ps.len()
        invariant
            i <= ps.len(),
            s == models(ps@),
            found matches Some(k) ==> k < i && name_in_props(s.take(i as int), pid@) == Some(s[k as int].name),
            found is None ==> name_in_props(s.take(i as int), pid@) is None,
        decreases ps.len() - i,
    {
        assert(s.take(i + 1).drop_last() =~= s.take(i as int));
        assert(s.take(i + 1).last() == ps@[i as int]@);
        if str_equal(ps[i].id.as_str(), pid) {
            found = Some(i);
        }
        i = i + 1;
    }
    assert(s.take(ps.len() as int) =~= s);
    found
}

fn find_property_name(ontology: &OntologyIR, pid: &str) -> (r: String)
    ensures
        r@ == property_name(ontology@, pid@),
{
    let ghost m = ontology@;
    let mut in_edges: Option<String> = None;
    let mut i: usize = 0;
    assert(m.edge_types.take(0) =~= Seq::<EdgeModel>::empty());
    while i < ontology.edge_types.len()
        invariant
            i <= ontology.edge_types.len(),
            m == ontology@,
            opt_text(in_edges) == name_in_edges(m.edge_types.take(i as int), pid@),
        decreases ontology.edge_types.len() - i,
    {
        assert(m.edge_types.take(i + 1).drop_last() =~= m.edge_types.take(i as int));
        assert(m.edge_types.take(i + 1).last() == ontology.edge_types@[i as int]@);
        match find_name_in_props(&ontology.edge_types[i].properties, pid) {
            Some(k) => {
                in_edges = Some(ontology.edge_types[i].properties[k].name.clone());
            },
            None => {},
        }
        i = i + 1;
    }
    assert(m.edge_types.take(ontology.edge_types.len() as int) =~= m.edge_types);
    let mut in_nodes: Option<String> = None;
    let mut j: usize = 0;
    assert(m.node_types.take(0) =~= Seq::<NodeModel>::empty());
    while j < ontology.node_types.len()
        invariant
            j <= ontology.node_types.len(),
            m == ontology@,
            opt_text(in_nodes) == name_in_nodes(m.node_types.take(j as int), pid@),
        decreases ontology.node_types.len() - j,
    {
        assert(m.node_types.take(j + 1).drop_last() =~= m.node_types.take(j as int));
        assert(m.node_types.take(j + 1).last() == ontology.node_types@[j as int]@);
        match find_name_in_props(&ontology.node_types[j].properties, pid) {
            Some(k) => {
                in_nodes = Some(ontology.node_types[j].properties[k].name.clone());
            },
            None => {},
        }
        j = j + 1;
    }
    assert(m.node_types.take(ontology.node_types.len() as int) =~= m.node_types);
    match in_edges {
        Some(n) => n,
        None => match in_nodes {
            Some(n) => n,
            None => pid.to_string(),
        },
    }
}

fn find_column_in_mappings(pms: &Vec<PropertyMapping>, pid: &str) -> (r: Option<String>)
    ensures
        opt_text(r) == column_in_mappings(models(pms@), pid@),
{
    let ghost s = models(pms@);
    let mut found: Option<String> = None;
    let mut i: usize = 0;
    assert(s.take(0) =~= Seq::<PropertyMappingModel>::empty());
    while i < pms.len()
        invariant
            i <= pms.len(),
            s == models(pms@),
            opt_text(found) == column_in_mappings(s.take(i as int), pid@),
        decreases pms.len() - i,
    {
        assert(s.take(i + 1).drop_last() =~= s.take(i as int));
        assert(s.take(i + 1).last() == pms@[i as int]@);
        if str_equal(pms[i].property_id.as_str(), pid) {
            match &pms[i].location {
                PropertyLocation::Column { column } => {
                    found = Some(column.clone());
                },
                PropertyLocation::JsonPath { .. } => {},
            }
        }
        i = i + 1;
    }
    assert(s.take(pms.len() as int) =~= s);
    found
}

fn find_source_column(oms: &Vec<ObjectMappingDef>, nid: &str, pid: &str) -> (r: Option<String>)
    ensures
        opt_text(r) == source_column(models(oms@), nid@, pid@),
{
    let ghost s = models(oms@);
    let mut found: Option<String> = None;
    let mut i: usize = 0;
    assert(s.take(0) =~= Seq::<ObjectMappingModel>::empty());
    while i < oms.len()
        invariant
            i <= oms.len(),
            s == models(oms@),
            opt_text(found) == source_column(s.take(i as int), nid@, pid@),
        decreases oms.len() - i,
    {
        assert(s.take(i + 1).drop_last() =~= s.take(i as int));
        assert(s.take(i + 1).last() == oms@[i as int]@);
        if str_equal(oms[i].node_type_id.as_str(), nid) {
            let c = find_column_in_mappings(&oms[i].property_mappings, pid);
            if c.is_some() {
                found = c;
            }
        }
        i = i + 1;
    }
    assert(s.take(oms.len() as int) =~= s);
    found
}

fn find_source_table(oms: &Vec<ObjectMappingDef>, nid: &str) -> (r: Option<String>)
    ensures
        opt_text(r) == source_table(models(oms@), nid@),
{
    let ghost s = models(oms@);
    let mut best: Option<usize> = None;
    let mut i: usize = 0;
    assert(s.take(0) =~= Seq::<ObjectMappingModel>::empty());
    while i < oms.len()
        invariant
            i <= oms.len(),
            s == models(oms@),
            best matches Some(k) ==> k < i && preferred_mapping(s.take(i as int), nid@) == Some(
                (s[k as int].relation, s[k as int].precedence),
            ),
            best is None ==> preferred_mapping(s.take(i as int), nid@) is None,
        decreases oms.len() - i,
    {
        assert(s.take(i + 1).drop_last() =~= s.take(i as int));
        assert(s.take(i + 1).last() == oms@[i as int]@);
        if str_equal(oms[i].node_type_id.as_str(), nid) {
            let take = match best {
                Some(k) => oms[i].precedence >= oms[k].precedence,
                None => true,
            };
            if take {
                best = Some(i);
            }
        }
        i = i + 1;
    }
    assert(s.take(oms.len() as int) =~= s);
    match best {
        Some(k) => Some(oms[k].relation.clone()),
        None => None,
    }
}

// ---------------------------------------------------------------------------
// Export
// ---------------------------------------------------------------------------

/// Property ids by name.
pub open spec fn name_exporter(m: OntologyModel) -> spec_fn(Seq<char>) -> Seq<char> {
    |pid: Seq<char>| property_name(m, pid)
}

/// A property in exchange form; only node type properties (`owner` is
/// the node type's id) carry a source column.
pub open spec fn exported_property(m: OntologyModel, owner: Option<Seq<char>>, p: PropertyModel) -> InputPropertyModel {
    InputPropertyModel {
        id: Some(p.id),
        name: p.name,
        property_type: p.property_type,
        nullable: p.nullable,
        default_value: p.default_value,
        description: p.description,
        source_column: match owner {
            Some(nid) => source_column(m.object_mappings, nid, p.id),
            None => None,
        },
    }
}

/// Properties of one owner in exchange form.
pub open spec fn property_exporter(m: OntologyModel, owner: Option<Seq<char>>) -> spec_fn(PropertyModel) -> InputPropertyModel {
    |p: PropertyModel| exported_property(m, owner, p)
}

/// A constraint in exchange form.
pub open spec fn exported_constraint(m: OntologyModel, c: ConstraintModel) -> InputConstraintModel {
    InputConstraintModel {
        kind: c.kind,
        id: Some(c.id),
        properties: c.property_ids.map_values(name_exporter(m)),
    }
}

/// Constraints in exchange form.
pub open spec fn constraint_exporter(m: OntologyModel) -> spec_fn(ConstraintModel) -> InputConstraintModel {
    |c: ConstraintModel| exported_constraint(m, c)
}

/// A node type in exchange form.
pub open spec fn exported_node(m: OntologyModel, n: NodeModel) -> InputNodeModel {
    InputNodeModel {
        id: Some(n.id),
        label: n.label,
        description: n.description,
        source_table: source_table(m.object_mappings, n.id),
        properties: n.properties.map_values(property_exporter(m, Some(n.id))),
        constraints: n.constraints.map_values(constraint_exporter(m)),
    }
}

/// Node types in exchange form.
pub open spec fn node_exporter(m: OntologyModel) -> spec_fn(NodeModel) -> InputNodeModel {
    |n: NodeModel| exported_node(m, n)
}

/// An edge type in exchange form.
pub open spec fn exported_edge(m: OntologyModel, e: EdgeModel) -> InputEdgeModel {
    InputEdgeModel {
        id: Some(e.id),
        label: e.label,
        description: e.description,
        source_type: node_label(m.node_types, e.source_node_id),
        target_type: node_label(m.node_types, e.target_node_id),
        properties: e.properties.map_values(property_exporter(m, None)),
        cardinality: e.cardinality,
    }
}

/// Edge types in exchange form.
pub open spec fn edge_exporter(m: OntologyModel) -> spec_fn(EdgeModel) -> InputEdgeModel {
    |e: EdgeModel| exported_edge(m, e)
}

/// An index in exchange form.
pub open spec fn exported_index(m: OntologyModel, i: IndexModel) -> InputIndexModel {
    InputIndexModel {
        kind: i.kind,
        id: Some(i.id),
        name: i.name,
        label: node_label(m.node_types, i.node_id),
        properties: i.property_ids.map_values(name_exporter(m)),
        dimensions: i.dimensions,
        similarity: i.similarity,
    }
}

/// Indexes in exchange form.
pub open spec fn index_exporter(m: OntologyModel) -> spec_fn(IndexModel) -> InputIndexModel {
    |i: IndexModel| exported_index(m, i)
}

/// An ontology in exchange form.
pub open spec fn exported(m: OntologyModel) -> InputOntologyModel {
    InputOntologyModel {
        format_version: 1,
        id: Some(m.id),
        name: m.name,
        description: m.description,
        version: m.version,
        node_types: m.node_types.map_values(node_exporter(m)),
        edge_types: m.edge_types.map_values(edge_exporter(m)),
        indexes: m.indexes.map_values(index_exporter(m)),
    }
}

/// Node type id model of an optional id.
pub open spec fn owner_model(owner: Option<&str>) -> Option<Seq<char>> {
    match owner {
        Some(s) => Some(s@),
        None => None,
    }
}

fn export_names(ontology: &OntologyIR, pids: &Vec<String>) -> (r: Vec<String>)
    ensures
        texts(r@) == texts(pids@).map_values(name_exporter(ontology@)),
{
    let mut out: Vec<String> = Vec::new();
    let mut i: usize = 0;
    while i < pids.len()
        invariant
            i <= pids.len(),
            out@.len() == i,
            forall|j: int| 0 <= j < i ==> (#[trigger] out@[j])@ == property_name(ontology@, pids@[j]@),
        decreases pids.len() - i,
    {
        out.push(find_property_name(ontology, pids[i].as_str()));
        i = i + 1;
    }
    assert(texts(out@) =~= texts(pids@).map_values(name_exporter(ontology@)));
    out
}

fn export_property(ontology: &OntologyIR, owner: Option<&str>, p: &PropertyDef) -> (r: InputPropertyDef)
    ensures
        r@ == exported_property(ontology@, owner_model(owner), p@),
{
    let source_column = match owner {
        Some(nid) => find_source_column(&ontology.object_mappings, nid, p.id.as_str()),
        None => None,
    };
    InputPropertyDef {
        id: Some(p.id.clone()),
        name: p.name.clone(),
        property_type: p.property_type,
        nullable: p.nullable,
        default_value: crate::model::copy_opt_text(&p.default_value),
        description: p.description.clone(),
        source_column,
    }
}

fn export_properties(ontology: &OntologyIR, owner: Option<&str>, ps: &Vec<PropertyDef>) -> (r: Vec<InputPropertyDef>)
    ensures
        models(r@) == models(ps@).map_values(property_exporter(ontology@, owner_model(owner))),
{
    let mut out: Vec<InputPropertyDef> = Vec::new();
    let mut i: usize = 0;
    while i < ps.len()
        invariant
            i <= ps.len(),
            out@.len() == i,
            forall|j: int|
                0 <= j < i ==> (#[trigger] out@[j])@ == exported_property(ontology@, owner_model(owner), ps@[j]@),
        decreases ps.len() - i,
    {
        out.push(export_property(ontology, owner, &ps[i]));
        i = i + 1;
    }
    assert(models(out@) =~= models(ps@).map_values(property_exporter(ontology@, owner_model(owner))));
    out
}

fn export_constraint(ontology: &OntologyIR, c: &ConstraintDef) -> (r: InputNodeConstraint)
    ensures
        r@ == exported_constraint(ontology@, c@),
{
    match &c.constraint {
        NodeConstraint::Unique { property_ids } => InputNodeConstraint::Unique {
            id: Some(c.id.clone()),
            properties: export_names(ontology, property_ids),
        },
        NodeConstraint::Exists { property_id } => {
            let property = find_property_name(ontology, property_id.as_str());
            assert(seq![property_id@].map_values(name_exporter(ontology@)) =~= seq![property@]);
            InputNodeConstraint::Exists { id: Some(c.id.clone()), property }
        },
        NodeConstraint::NodeKey { property_ids } => InputNodeConstraint::NodeKey {
            id: Some(c.id.clone()),
            properties: export_names(ontology, property_ids),
        },
    }
}

fn export_node(ontology: &OntologyIR, n: &NodeTypeDef) -> (r: InputNodeTypeDef)
    ensures
        r@ == exported_node(ontology@, n@),
{
    let mut constraints: Vec<InputNodeConstraint> = Vec::new();
    let mut i: usize = 0;
    while i < n.constraints.len()
        invariant
            i <= n.constraints.len(),
            constraints@.len() == i,
            forall|j: int|
                0 <= j < i ==> (#[trigger] constraints@[j])@ == exported_constraint(ontology@, n.constraints@[j]@),
        decreases n.constraints.len() - i,
    {
        constraints.push(export_constraint(ontology, &n.constraints[i]));
        i = i + 1;
    }
    assert(models(constraints@) =~= models(n.constraints@).map_values(constraint_exporter(ontology@)));
    let properties = export_properties(ontology, Some(n.id.as_str()), &n.properties);
    InputNodeTypeDef {
        id: Some(n.id.clone()),
        label: n.label.clone(),
        description: n.description.clone(),
        source_table: find_source_table(&ontology.object_mappings, n.id.as_str()),
        properties,
        constraints,
    }
}

fn export_edge(ontology: &OntologyIR, e: &EdgeTypeDef) -> (r: InputEdgeTypeDef)
    ensures
        r@ == exported_edge(ontology@, e@),
{
    InputEdgeTypeDef {
        id: Some(e.id.clone()),
        label: e.label.clone(),
        description: e.description.clone(),
        source_type: find_node_label(&ontology.node_types, e.source_node_id.as_str()),
        target_type: find_node_label(&ontology.node_types, e.target_node_id.as_str()),
        properties: export_properties(ontology, None, &e.properties),
        cardinality: e.cardinality,
    }
}

fn export_index(ontology: &OntologyIR, index: &IndexDef) -> (r: InputIndexDef)
    ensures
        r@ == exported_index(ontology@, index@),
{
    match index {
        IndexDef::Single { id, node_id, property_id } => {
            let property = find_property_name(ontology, property_id.as_str());
            assert(seq![property_id@].map_values(name_exporter(ontology@)) =~= seq![property@]);
            InputIndexDef::Single {
                id: Some(id.clone()),
                label: find_node_label(&ontology.node_types, node_id.as_str()),
                property,
            }
        },
        IndexDef::Composite { id, node_id, property_ids } => InputIndexDef::Composite {
            id: Some(id.clone()),
            label: find_node_label(&ontology.node_types, node_id.as_str()),
            properties: export_names(ontology, property_ids),
        },
        IndexDef::FullText { id, name, node_id, property_ids } => InputIndexDef::FullText {
            id: Some(id.clone()),
            name: name.clone(),
            label: find_node_label(&ontology.node_types, node_id.as_str()),
            properties: export_names(ontology, property_ids),
        },
        IndexDef::Vector { id, node_id, property_id, dimensions, similarity } => {
            let property = find_property_name(ontology, property_id.as_str());
            assert(seq![property_id@].map_values(name_exporter(ontology@)) =~= seq![property@]);
            InputIndexDef::Vector {
                id: Some(id.clone()),
                label: find_node_label(&ontology.node_types, node_id.as_str()),
                property,
                dimensions: *dimensions,
                similarity: *similarity,
            }
        },
    }
}

/// The exchange form of an ontology: node types with their source
/// table (the relation of their highest-precedence object mapping) and
/// their properties' source columns (column locations only), edge
/// types with their endpoints by label, constraint and index properties
/// by name, and every id kept. A node id or property id with no
/// definition is written as itself.
pub fn to_exchange_format(ontology: &OntologyIR) -> (r: InputOntologyDef)
    ensures
        r@ == exported(ontology@),
{
    let mut node_types: Vec<InputNodeTypeDef> = Vec::new();
    let mut i: usize = 0;
    while i < ontology.node_types.len()
        invariant
            i <= ontology.node_types.len(),
            node_types@.len() == i,
            forall|j: int|
                0 <= j < i ==> (#[trigger] node_types@[j])@ == exported_node(ontology@, ontology.node_types@[j]@),
        decreases ontology.node_types.len() - i,
    {
        node_types.push(export_node(ontology, &ontology.node_types[i]));
        i = i + 1;
    }
    let mut edge_types: Vec<InputEdgeTypeDef> = Vec::new();
    let mut k: usize = 0;
    while k < ontology.edge_types.len()
        invariant
            k <= ontology.edge_types.len(),
            edge_types@.len() == k,
            forall|j: int|
                0 <= j < k ==> (#[trigger] edge_types@[j])@ == exported_edge(ontology@, ontology.edge_types@[j]@),
        decreases ontology.edge_types.len() - k,
    {
        edge_types.push(export_edge(ontology, &ontology.edge_types[k]));
        k = k + 1;
    }
    let mut indexes: Vec<InputIndexDef> = Vec::new();
    let mut x: usize = 0;
    while x < ontology.indexes.len()
        invariant
            x <= ontology.indexes.len(),
            indexes@.len() == x,
            forall|j: int|
                0 <= j < x ==> (#[trigger] indexes@[j])@ == exported_index(ontology@, ontology.indexes@[j]@),
        decreases ontology.indexes.len() - x,
    {
        indexes.push(export_index(ontology, &ontology.indexes[x]));
        x = x + 1;
    }
    let r = InputOntologyDef {
        format_version: 1,
        id: Some(ontology.id.clone()),
        name: ontology.name.clone(),
        description: ontology.description.clone(),
        version: ontology.version,
        node_types,
        edge_types,
        indexes,
    };
    assert(r@.node_types =~= ontology@.node_types.map_values(node_exporter(ontology@)));
    assert(r@.edge_types =~= ontology@.edge_types.map_values(edge_exporter(ontology@)));
    assert(r@.indexes =~= ontology@.indexes.map_values(index_exporter(ontology@)));
    r
}

/// A node type with object mappings takes its source table from one of
/// them whose precedence no other mapping of the node type exceeds.
pub proof fn lemma_source_table_highest_precedence(oms: Seq<ObjectMappingModel>, nid: Seq<char>)
    ensures
        (exists|j: int| 0 <= j < oms.len() && (#[trigger] oms[j]).node_type_id == nid) <==> preferred_mapping(
            oms,
            nid,
        ) is Some,
        preferred_mapping(oms, nid) matches Some(p) ==> (exists|j: int|
            0 <= j < oms.len() && (#[trigger] oms[j]).node_type_id == nid && oms[j].relation == p.0
                && oms[j].precedence == p.1),
        preferred_mapping(oms, nid) matches Some(p) ==> (forall|j: int|
            0 <= j < oms.len() && (#[trigger] oms[j]).node_type_id == nid ==> oms[j].precedence <= p.1),
    decreases oms.len(),
{
    if oms.len() > 0 {
        let prev_s = oms.drop_last();
        lemma_source_table_highest_precedence(prev_s, nid);
        let last = oms.len() - 1;
        assert forall|j: int| 0 <= j < last implies #[trigger] oms[j] == prev_s[j] by {}
        if (exists|j: int| 0 <= j < oms.len() && (#[trigger] oms[j]).node_type_id == nid) {
            let j = choose|j: int| 0 <= j < oms.len() && (#[trigger] oms[j]).node_type_id == nid;
            if j < last {
                assert(prev_s[j].node_type_id == nid);
            }
        }
        if let Some(p) = preferred_mapping(prev_s, nid) {
            let j = choose|j: int|
                0 <= j < prev_s.len() && (#[trigger] prev_s[j]).node_type_id == nid && prev_s[j].relation == p.0
                    && prev_s[j].precedence == p.1;
            assert(oms[j] == prev_s[j]);
        }
        if let Some(p) = preferred_mapping(oms, nid) {
            assert forall|j: int| 0 <= j < oms.len() && (#[trigger] oms[j]).node_type_id == nid implies oms[j].precedence
                <= p.1 by {
                if j < last {
                    assert(prev_s[j].node_type_id == nid);
                }
            }
        }
    }
}

} // verus!
