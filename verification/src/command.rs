//! Atomic, invertible operations on an [`OntologyIR`].
//!
//! Each [`OntologyCommand`] either fails, leaving the ontology as it
//! was, or produces the edited ontology together with the command that
//! undoes it. The effect of every command is stated by [`step`], a
//! function on ontology models; [`OntologyCommand::execute`] additionally
//! rejects results that are not well formed.

use vstd::prelude::*;

use crate::ir::{
    Cardinality, ConstraintDef, ConstraintModel, EdgeModel, EdgeTypeDef, IndexDef, IndexModel,
    LinkMappingDef, LinkMappingModel, NodeModel, NodeTypeDef, ObjectMappingDef,
    ObjectMappingModel, OntologyIR, OntologyModel, PropertyDef, PropertyMappingModel,
    PropertyModel, PropertyType,
};
use crate::model::{
    first_match, has_key, key_is, keys_unique, lemma_filter_all, lemma_first_match_push_absent,
    lemma_first_match_props, lemma_models_empty, lemma_first_match_scan, copy_vec, lemma_models_push, lemma_models_remove, lemma_models_update,
    copy_opt_text, copy_texts, models, opt_text, position_of, replace_at, split_matching, texts, DeepCopy,
    Keyed,
};
use crate::text::{decimal, decimal_string, str_equal};
use crate::validate::{
    endpoints_exist, indexes_anchored, labels_unique, link_mappings_anchored,
    object_mappings_anchored, triples_unique, well_formed,
};
use vstd::string::StringExecFns;

verus! {

/// The owner of a property: a node type or an edge type.
#[derive(Debug, Clone, PartialEq, Eq)]
pub enum PropertyOwner {
    Node { type_id: String },
    Edge { type_id: String },
}

/// Id of a property owner.
pub open spec fn owner_id(o: PropertyOwner) -> Seq<char> {
    match o {
        PropertyOwner::Node { type_id } => type_id@,
        PropertyOwner::Edge { type_id } => type_id@,
    }
}

impl PropertyOwner {
    /// The owner's type id.
    pub fn as_str(&self) -> (r: &String)
        ensures
            r@ == owner_id(*self),
    {
        match self {
            PropertyOwner::Node { type_id } => type_id,
            PropertyOwner::Edge { type_id } => type_id,
        }
    }

    fn copy(&self) -> (r: PropertyOwner)
        ensures
            r == *self,
    {
        match self {
            PropertyOwner::Node { type_id } => PropertyOwner::Node { type_id: type_id.clone() },
            PropertyOwner::Edge { type_id } => PropertyOwner::Edge { type_id: type_id.clone() },
        }
    }
}

/// Partial update of a property; `None` fields are left unchanged.
#[derive(Debug, Clone, PartialEq, Eq, Default)]
pub struct PropertyPatch {
    pub name: Option<String>,
    pub property_type: Option<PropertyType>,
    pub nullable: Option<bool>,
    /// `Some(None)` clears the default value.
    pub default_value: Option<Option<String>>,
    pub description: Option<String>,
}

/// An atomic ontology operation.
#[derive(Debug)]
pub enum OntologyCommand {
    AddNode { id: String, label: String, description: String },
    CreateNodeType { node: Box<NodeTypeDef> },
    DeleteNode { node_id: String },
    RenameNode { node_id: String, new_label: String },
    UpdateNodeDescription { node_id: String, description: String },
    SetNodeGlossaryAnchors { node_id: String, anchors: Vec<String> },
    AddEdge {
        id: String,
        label: String,
        source_node_id: String,
        target_node_id: String,
        cardinality: Cardinality,
    },
    CreateEdgeType { edge: Box<EdgeTypeDef> },
    DeleteEdge { edge_id: String },
    RenameEdge { edge_id: String, new_label: String },
    UpdateEdgeCardinality { edge_id: String, cardinality: Cardinality },
    UpdateEdgeDescription { edge_id: String, description: String },
    SetEdgeGlossaryAnchors { edge_id: String, anchors: Vec<String> },
    AddProperty { owner: PropertyOwner, property: Box<PropertyDef> },
    DeleteProperty { owner: PropertyOwner, property_id: String },
    UpdateProperty { owner: PropertyOwner, property_id: String, patch: PropertyPatch },
    AddConstraint { node_id: String, constraint: ConstraintDef },
    RemoveConstraint { node_id: String, constraint_id: String },
    AddIndex { index: IndexDef },
    RemoveIndex { index_id: String },
    CreateObjectMapping { mapping: Box<ObjectMappingDef> },
    UpdateObjectMapping { id: String, mapping: Box<ObjectMappingDef> },
    DeleteObjectMapping { id: String },
    CreateLinkMapping { mapping: Box<LinkMappingDef> },
    UpdateLinkMapping { id: String, mapping: Box<LinkMappingDef> },
    DeleteLinkMapping { id: String },
    Batch { description: String, commands: Vec<OntologyCommand> },
}

/// The edited ontology and the command that undoes the edit.
#[derive(Debug)]
pub struct CommandResult {
    pub new_ontology: OntologyIR,
    pub inverse: OntologyCommand,
}

// ---------------------------------------------------------------------------
// Semantics
// ---------------------------------------------------------------------------

/// A node type with only an id, label and description.
pub open spec fn bare_node(id: Seq<char>, label: Seq<char>, description: Seq<char>) -> NodeModel {
    NodeModel {
        id,
        label,
        description,
        properties: Seq::empty(),
        constraints: Seq::empty(),
        implements: Seq::empty(),
        rules: Seq::empty(),
        actions: Seq::empty(),
        metrics: Seq::empty(),
        glossary_anchors: Seq::empty(),
        concept_id: None,
        deprecated_at: None,
        replaced_by_id: None,
    }
}

/// An edge type with only its identity, endpoints and cardinality.
pub open spec fn bare_edge(
    id: Seq<char>,
    label: Seq<char>,
    source_node_id: Seq<char>,
    target_node_id: Seq<char>,
    cardinality: Cardinality,
) -> EdgeModel {
    EdgeModel {
        id,
        label,
        description: Seq::empty(),
        source_node_id,
        target_node_id,
        properties: Seq::empty(),
        cardinality,
        glossary_anchors: Seq::empty(),
        concept_id: None,
        deprecated_at: None,
        replaced_by_id: None,
    }
}

/// Some node type carries `label`.
pub open spec fn has_node_label(s: Seq<NodeModel>, label: Seq<char>) -> bool {
    exists|j: int| 0 <= j < s.len() && (#[trigger] s[j]).label == label
}

/// Some node type other than `id` carries `label`.
pub open spec fn label_taken_by_other(s: Seq<NodeModel>, label: Seq<char>, id: Seq<char>) -> bool {
    exists|j: int| 0 <= j < s.len() && (#[trigger] s[j]).label == label && s[j].id != id
}

/// Some edge type other than `except` has this label and endpoints.
pub open spec fn edge_triple_taken(
    s: Seq<EdgeModel>,
    label: Seq<char>,
    src: Seq<char>,
    tgt: Seq<char>,
    except: Option<Seq<char>>,
) -> bool {
    exists|j: int|
        0 <= j < s.len() && (#[trigger] s[j]).label == label && s[j].source_node_id == src
            && s[j].target_node_id == tgt && except != Some(s[j].id)
}

/// Add a node type unless its id or label is taken.
pub open spec fn add_node_step(m: OntologyModel, n: NodeModel) -> Option<OntologyModel> {
    if has_key::<NodeTypeDef>(m.node_types, n.id) || has_node_label(m.node_types, n.label) {
        None
    } else {
        Some(OntologyModel { node_types: m.node_types.push(n), ..m })
    }
}

/// Add an edge type whose endpoints exist, unless its id or its
/// `(label, source, target)` triple is taken.
pub open spec fn add_edge_step(m: OntologyModel, e: EdgeModel) -> Option<OntologyModel> {
    if !has_key::<NodeTypeDef>(m.node_types, e.source_node_id) || !has_key::<NodeTypeDef>(
        m.node_types,
        e.target_node_id,
    ) || has_key::<EdgeTypeDef>(m.edge_types, e.id) || edge_triple_taken(
        m.edge_types,
        e.label,
        e.source_node_id,
        e.target_node_id,
        None,
    ) {
        None
    } else {
        Some(OntologyModel { edge_types: m.edge_types.push(e), ..m })
    }
}

/// The edge touches node `id` at either end.
pub open spec fn touches(e: EdgeModel, id: Seq<char>) -> bool {
    e.source_node_id == id || e.target_node_id == id
}

/// Some edge touching node `id` has id `edge_id`.
pub open spec fn removed_edge_id(edges: Seq<EdgeModel>, id: Seq<char>, edge_id: Seq<char>) -> bool {
    exists|j: int| 0 <= j < edges.len() && touches(#[trigger] edges[j], id) && edges[j].id == edge_id
}

/// Nothing names node type `id`: no edge type has it as an endpoint, and
/// no index or object mapping sits on it.
pub open spec fn node_unreferenced(m: OntologyModel, id: Seq<char>) -> bool {
    &&& forall|j: int| 0 <= j < m.edge_types.len() ==> !touches(#[trigger] m.edge_types[j], id)
    &&& forall|j: int| 0 <= j < m.indexes.len() ==> (#[trigger] m.indexes[j]).node_id != id
    &&& forall|j: int|
        0 <= j < m.object_mappings.len() ==> (#[trigger] m.object_mappings[j]).node_type_id != id
}

/// No link mapping names edge type `id`.
pub open spec fn edge_unreferenced(m: OntologyModel, id: Seq<char>) -> bool {
    forall|j: int| 0 <= j < m.link_mappings.len() ==> (#[trigger] m.link_mappings[j]).edge_type_id != id
}

/// The node type `id`, where there is one, is the only node type with
/// its label.
pub open spec fn node_label_alone(m: OntologyModel, id: Seq<char>) -> bool {
    match first_match(m.node_types, key_is::<NodeTypeDef>(id)) {
        Some(i) => !label_taken_by_other(m.node_types, m.node_types[i].label, id),
        None => true,
    }
}

/// The edge type `id`, where there is one, is the only edge type with its
/// label between its endpoints.
pub open spec fn edge_triple_alone(m: OntologyModel, id: Seq<char>) -> bool {
    match first_match(m.edge_types, key_is::<EdgeTypeDef>(id)) {
        Some(i) => !edge_triple_taken(
            m.edge_types,
            m.edge_types[i].label,
            m.edge_types[i].source_node_id,
            m.edge_types[i].target_node_id,
            Some(id),
        ),
        None => true,
    }
}

/// Delete a node type with every edge touching it, the link mappings of
/// those edges, and the indexes and object mappings on the node type.
pub open spec fn delete_node_step(m: OntologyModel, id: Seq<char>) -> Option<OntologyModel> {
    match first_match(m.node_types, key_is::<NodeTypeDef>(id)) {
        Some(i) => Some(
            OntologyModel {
                node_types: m.node_types.remove(i),
                edge_types: m.edge_types.filter(|e: EdgeModel| !touches(e, id)),
                link_mappings: m.link_mappings.filter(
                    |l: LinkMappingModel| !removed_edge_id(m.edge_types, id, l.edge_type_id),
                ),
                indexes: m.indexes.filter(|x: IndexModel| !(x.node_id == id)),
                object_mappings: m.object_mappings.filter(
                    |o: ObjectMappingModel| !(o.node_type_id == id),
                ),
                ..m
            },
        ),
        None => None,
    }
}

/// Replace the node type at the position of `id` by `f` of it.
pub open spec fn edit_node(
    m: OntologyModel,
    id: Seq<char>,
    f: spec_fn(NodeModel) -> NodeModel,
) -> Option<OntologyModel> {
    match first_match(m.node_types, key_is::<NodeTypeDef>(id)) {
        Some(i) => Some(
            OntologyModel { node_types: m.node_types.update(i, f(m.node_types[i])), ..m },
        ),
        None => None,
    }
}

/// Replace the edge type at the position of `id` by `f` of it.
pub open spec fn edit_edge(
    m: OntologyModel,
    id: Seq<char>,
    f: spec_fn(EdgeModel) -> EdgeModel,
) -> Option<OntologyModel> {
    match first_match(m.edge_types, key_is::<EdgeTypeDef>(id)) {
        Some(i) => Some(
            OntologyModel { edge_types: m.edge_types.update(i, f(m.edge_types[i])), ..m },
        ),
        None => None,
    }
}

/// Rename a node type unless another node type carries the label.
pub open spec fn rename_node_step(m: OntologyModel, id: Seq<char>, label: Seq<char>) -> Option<
    OntologyModel,
> {
    if first_match(m.node_types, key_is::<NodeTypeDef>(id)) is Some && label_taken_by_other(
        m.node_types,
        label,
        id,
    ) {
        None
    } else {
        edit_node(m, id, |n: NodeModel| NodeModel { label, ..n })
    }
}

/// Rename an edge type unless another edge with the same endpoints
/// carries the label.
pub open spec fn rename_edge_step(m: OntologyModel, id: Seq<char>, label: Seq<char>) -> Option<
    OntologyModel,
> {
    match first_match(m.edge_types, key_is::<EdgeTypeDef>(id)) {
        Some(i) => if edge_triple_taken(
            m.edge_types,
            label,
            m.edge_types[i].source_node_id,
            m.edge_types[i].target_node_id,
            Some(id),
        ) {
            None
        } else {
            edit_edge(m, id, |e: EdgeModel| EdgeModel { label, ..e })
        },
        None => None,
    }
}

/// The property list of an owner, when the owner exists.
pub open spec fn owner_props(m: OntologyModel, o: PropertyOwner) -> Option<Seq<PropertyModel>> {
    match o {
        PropertyOwner::Node { type_id } => match first_match(
            m.node_types,
            key_is::<NodeTypeDef>(type_id@),
        ) {
            Some(i) => Some(m.node_types[i].properties),
            None => None,
        },
        PropertyOwner::Edge { type_id } => match first_match(
            m.edge_types,
            key_is::<EdgeTypeDef>(type_id@),
        ) {
            Some(i) => Some(m.edge_types[i].properties),
            None => None,
        },
    }
}

/// Replace the property list of an existing owner.
pub open spec fn with_owner_props(
    m: OntologyModel,
    o: PropertyOwner,
    props: Seq<PropertyModel>,
) -> OntologyModel {
    match o {
        PropertyOwner::Node { type_id } => match first_match(
            m.node_types,
            key_is::<NodeTypeDef>(type_id@),
        ) {
            Some(i) => OntologyModel {
                node_types: m.node_types.update(
                    i,
                    NodeModel { properties: props, ..m.node_types[i] },
                ),
                ..m
            },
            None => m,
        },
        PropertyOwner::Edge { type_id } => match first_match(
            m.edge_types,
            key_is::<EdgeTypeDef>(type_id@),
        ) {
            Some(i) => OntologyModel {
                edge_types: m.edge_types.update(
                    i,
                    EdgeModel { properties: props, ..m.edge_types[i] },
                ),
                ..m
            },
            None => m,
        },
    }
}

/// Add a property to an existing owner unless the owner has its id.
pub open spec fn add_property_step(m: OntologyModel, o: PropertyOwner, p: PropertyModel) -> Option<
    OntologyModel,
> {
    match owner_props(m, o) {
        Some(props) => if has_key::<PropertyDef>(props, p.id) {
            None
        } else {
            Some(with_owner_props(m, o, props.push(p)))
        },
        None => None,
    }
}

/// Whether the owner is a node type.
pub open spec fn owner_is_node(o: PropertyOwner) -> bool {
    o is Node
}

/// Drop the mappings of property `pid` from the object mappings of node
/// type `nid`.
pub open spec fn strip_property_mappings(
    oms: Seq<ObjectMappingModel>,
    nid: Seq<char>,
    pid: Seq<char>,
) -> Seq<ObjectMappingModel> {
    oms.map_values(
        |o: ObjectMappingModel|
            if o.node_type_id == nid {
                ObjectMappingModel {
                    property_mappings: o.property_mappings.filter(
                        |pm: PropertyMappingModel| !(pm.property_id == pid),
                    ),
                    ..o
                }
            } else {
                o
            },
    )
}

/// Delete a property with the node constraints and the owner's indexes
/// that reference it, and (for node owners) its object-mapping entries.
pub open spec fn delete_property_step(m: OntologyModel, o: PropertyOwner, pid: Seq<char>) -> Option<
    OntologyModel,
> {
    match owner_props(m, o) {
        Some(props) => match first_match(props, key_is::<PropertyDef>(pid)) {
            Some(k) => {
                let m1 = with_owner_props(m, o, props.remove(k));
                let m2 = if owner_is_node(o) {
                    let i = first_match(m1.node_types, key_is::<NodeTypeDef>(owner_id(o))).unwrap();
                    OntologyModel {
                        node_types: m1.node_types.update(
                            i,
                            NodeModel {
                                constraints: m1.node_types[i].constraints.filter(
                                    |c: ConstraintModel| !c.property_ids.contains(pid),
                                ),
                                ..m1.node_types[i]
                            },
                        ),
                        ..m1
                    }
                } else {
                    m1
                };
                let m3 = OntologyModel {
                    indexes: m2.indexes.filter(
                        |x: IndexModel| !(x.node_id == owner_id(o) && x.property_ids.contains(pid)),
                    ),
                    ..m2
                };
                Some(
                    if owner_is_node(o) {
                        OntologyModel {
                            object_mappings: strip_property_mappings(
                                m3.object_mappings,
                                owner_id(o),
                                pid,
                            ),
                            ..m3
                        }
                    } else {
                        m3
                    },
                )
            },
            None => None,
        },
        None => None,
    }
}

/// A property with a patch applied.
pub open spec fn apply_patch(p: PropertyModel, patch: PropertyPatch) -> PropertyModel {
    PropertyModel {
        name: match patch.name {
            Some(n) => n@,
            None => p.name,
        },
        property_type: match patch.property_type {
            Some(t) => t,
            None => p.property_type,
        },
        nullable: match patch.nullable {
            Some(b) => b,
            None => p.nullable,
        },
        default_value: match patch.default_value {
            Some(d) => opt_text(d),
            None => p.default_value,
        },
        description: match patch.description {
            Some(d) => d@,
            None => p.description,
        },
        ..p
    }
}

/// Patch a property of an existing owner.
pub open spec fn update_property_step(
    m: OntologyModel,
    o: PropertyOwner,
    pid: Seq<char>,
    patch: PropertyPatch,
) -> Option<OntologyModel> {
    match owner_props(m, o) {
        Some(props) => match first_match(props, key_is::<PropertyDef>(pid)) {
            Some(k) => Some(with_owner_props(m, o, props.update(k, apply_patch(props[k], patch)))),
            None => None,
        },
        None => None,
    }
}

/// Append to a keyed collection unless the key is taken.
pub open spec fn keyed_push<T: Keyed>(s: Seq<T::V>, x: T::V) -> Option<Seq<T::V>> {
    if has_key::<T>(s, T::key_of(x)) {
        None
    } else {
        Some(s.push(x))
    }
}

/// Remove the first element with key `id`.
pub open spec fn keyed_remove<T: Keyed>(s: Seq<T::V>, id: Seq<char>) -> Option<Seq<T::V>> {
    match first_match(s, key_is::<T>(id)) {
        Some(i) => Some(s.remove(i)),
        None => None,
    }
}

/// Replace the first element with key `id` by `x`, whose key must be `id`.
pub open spec fn keyed_replace<T: Keyed>(s: Seq<T::V>, id: Seq<char>, x: T::V) -> Option<
    Seq<T::V>,
> {
    if T::key_of(x) != id {
        None
    } else {
        match first_match(s, key_is::<T>(id)) {
            Some(i) => Some(s.update(i, x)),
            None => None,
        }
    }
}

/// Add a constraint to a node type unless the node has its id.
pub open spec fn add_constraint_step(m: OntologyModel, nid: Seq<char>, c: ConstraintModel) -> Option<
    OntologyModel,
> {
    match first_match(m.node_types, key_is::<NodeTypeDef>(nid)) {
        Some(i) => match keyed_push::<ConstraintDef>(m.node_types[i].constraints, c) {
            Some(cs) => Some(
                OntologyModel {
                    node_types: m.node_types.update(i, NodeModel { constraints: cs, ..m.node_types[i] }),
                    ..m
                },
            ),
            None => None,
        },
        None => None,
    }
}

/// Remove a constraint from a node type.
pub open spec fn remove_constraint_step(m: OntologyModel, nid: Seq<char>, cid: Seq<char>) -> Option<
    OntologyModel,
> {
    match first_match(m.node_types, key_is::<NodeTypeDef>(nid)) {
        Some(i) => match keyed_remove::<ConstraintDef>(m.node_types[i].constraints, cid) {
            Some(cs) => Some(
                OntologyModel {
                    node_types: m.node_types.update(i, NodeModel { constraints: cs, ..m.node_types[i] }),
                    ..m
                },
            ),
            None => None,
        },
        None => None,
    }
}

/// The effect of a command on an ontology model; `None` when the command
/// is rejected.
pub open spec fn step(c: OntologyCommand, m: OntologyModel) -> Option<OntologyModel>
    decreases c,
{
    match c {
        OntologyCommand::AddNode { id, label, description } => add_node_step(
            m,
            bare_node(id@, label@, description@),
        ),
        OntologyCommand::CreateNodeType { node } => add_node_step(m, node@),
        OntologyCommand::DeleteNode { node_id } => delete_node_step(m, node_id@),
        OntologyCommand::RenameNode { node_id, new_label } => rename_node_step(
            m,
            node_id@,
            new_label@,
        ),
        OntologyCommand::UpdateNodeDescription { node_id, description } => edit_node(
            m,
            node_id@,
            |n: NodeModel| NodeModel { description: description@, ..n },
        ),
        OntologyCommand::SetNodeGlossaryAnchors { node_id, anchors } => edit_node(
            m,
            node_id@,
            |n: NodeModel| NodeModel { glossary_anchors: texts(anchors@), ..n },
        ),
        OntologyCommand::AddEdge { id, label, source_node_id, target_node_id, cardinality } =>
            add_edge_step(
            m,
            bare_edge(id@, label@, source_node_id@, target_node_id@, cardinality),
        ),
        OntologyCommand::CreateEdgeType { edge } => add_edge_step(m, edge@),
        OntologyCommand::DeleteEdge { edge_id } => match first_match(
            m.edge_types,
            key_is::<EdgeTypeDef>(edge_id@),
        ) {
            Some(i) => Some(
                OntologyModel {
                    edge_types: m.edge_types.remove(i),
                    link_mappings: m.link_mappings.filter(
                        |l: LinkMappingModel| !(l.edge_type_id == edge_id@),
                    ),
                    ..m
                },
            ),
            None => None,
        },
        OntologyCommand::RenameEdge { edge_id, new_label } => rename_edge_step(
            m,
            edge_id@,
            new_label@,
        ),
        OntologyCommand::UpdateEdgeCardinality { edge_id, cardinality } => edit_edge(
            m,
            edge_id@,
            |e: EdgeModel| EdgeModel { cardinality, ..e },
        ),
        OntologyCommand::UpdateEdgeDescription { edge_id, description } => edit_edge(
            m,
            edge_id@,
            |e: EdgeModel| EdgeModel { description: description@, ..e },
        ),
        OntologyCommand::SetEdgeGlossaryAnchors { edge_id, anchors } => edit_edge(
            m,
            edge_id@,
            |e: EdgeModel| EdgeModel { glossary_anchors: texts(anchors@), ..e },
        ),
        OntologyCommand::AddProperty { owner, property } => add_property_step(
            m,
            owner,
            property@,
        ),
        OntologyCommand::DeleteProperty { owner, property_id } => delete_property_step(
            m,
            owner,
            property_id@,
        ),
        OntologyCommand::UpdateProperty { owner, property_id, patch } => update_property_step(
            m,
            owner,
            property_id@,
            patch,
        ),
        OntologyCommand::AddConstraint { node_id, constraint } => add_constraint_step(
            m,
            node_id@,
            constraint@,
        ),
        OntologyCommand::RemoveConstraint { node_id, constraint_id } => remove_constraint_step(
            m,
            node_id@,
            constraint_id@,
        ),
        OntologyCommand::AddIndex { index } => match keyed_push::<IndexDef>(m.indexes, index@) {
            Some(s) => Some(OntologyModel { indexes: s, ..m }),
            None => None,
        },
        OntologyCommand::RemoveIndex { index_id } => match keyed_remove::<IndexDef>(
            m.indexes,
            index_id@,
        ) {
            Some(s) => Some(OntologyModel { indexes: s, ..m }),
            None => None,
        },
        OntologyCommand::CreateObjectMapping { mapping } => match keyed_push::<ObjectMappingDef>(
            m.object_mappings,
            mapping@,
        ) {
            Some(s) => Some(OntologyModel { object_mappings: s, ..m }),
            None => None,
        },
        OntologyCommand::UpdateObjectMapping { id, mapping } => match keyed_replace::<
            ObjectMappingDef,
        >(m.object_mappings, id@, mapping@) {
            Some(s) => Some(OntologyModel { object_mappings: s, ..m }),
            None => None,
        },
        OntologyCommand::DeleteObjectMapping { id } => match keyed_remove::<ObjectMappingDef>(
            m.object_mappings,
            id@,
        ) {
            Some(s) => Some(OntologyModel { object_mappings: s, ..m }),
            None => None,
        },
        OntologyCommand::CreateLinkMapping { mapping } => match keyed_push::<LinkMappingDef>(
            m.link_mappings,
            mapping@,
        ) {
            Some(s) => Some(OntologyModel { link_mappings: s, ..m }),
            None => None,
        },
        OntologyCommand::UpdateLinkMapping { id, mapping } => match keyed_replace::<
            LinkMappingDef,
        >(m.link_mappings, id@, mapping@) {
            Some(s) => Some(OntologyModel { link_mappings: s, ..m }),
            None => None,
        },
        OntologyCommand::DeleteLinkMapping { id } => match keyed_remove::<LinkMappingDef>(
            m.link_mappings,
            id@,
        ) {
            Some(s) => Some(OntologyModel { link_mappings: s, ..m }),
            None => None,
        },
        OntologyCommand::Batch { description, commands } => run_all(commands@, m),
    }
}

/// Run commands in order, stopping at the first rejection.
pub open spec fn run_all(cs: Seq<OntologyCommand>, m: OntologyModel) -> Option<OntologyModel>
    decreases cs,
{
    if cs.len() == 0 {
        Some(m)
    } else {
        match step(cs[0], m) {
            Some(m1) => run_all(cs.subrange(1, cs.len() as int), m1),
            None => None,
        }
    }
}

/// The message of a command whose target is missing: its kind, then its
/// id in quotes.
pub open spec fn missing_text(kind: Seq<char>, id: Seq<char>) -> Seq<char> {
    kind + id + "' not found"@
}

/// The message a command is refused with when the element it acts on does
/// not exist, checked before anything else: the node type of a node,
/// constraint or property command, the edge type of an edge or property
/// command. `None` when that element exists, or the command names none.
pub open spec fn missing_target(c: OntologyCommand, m: OntologyModel) -> Option<Seq<char>> {
    let node_missing = |id: Seq<char>|
        if first_match(m.node_types, key_is::<NodeTypeDef>(id)) is None {
            Some(missing_text("node '"@, id))
        } else {
            None
        };
    let edge_missing = |id: Seq<char>|
        if first_match(m.edge_types, key_is::<EdgeTypeDef>(id)) is None {
            Some(missing_text("edge '"@, id))
        } else {
            None
        };
    match c {
        OntologyCommand::DeleteNode { node_id }
        | OntologyCommand::RenameNode { node_id, .. }
        | OntologyCommand::UpdateNodeDescription { node_id, .. }
        | OntologyCommand::SetNodeGlossaryAnchors { node_id, .. }
        | OntologyCommand::AddConstraint { node_id, .. }
        | OntologyCommand::RemoveConstraint { node_id, .. } => node_missing(node_id@),
        OntologyCommand::DeleteEdge { edge_id }
        | OntologyCommand::RenameEdge { edge_id, .. }
        | OntologyCommand::UpdateEdgeCardinality { edge_id, .. }
        | OntologyCommand::UpdateEdgeDescription { edge_id, .. }
        | OntologyCommand::SetEdgeGlossaryAnchors { edge_id, .. } => edge_missing(edge_id@),
        OntologyCommand::AddProperty { owner, .. }
        | OntologyCommand::DeleteProperty { owner, .. }
        | OntologyCommand::UpdateProperty { owner, .. } => if owner_props(m, owner) is None {
            Some(owner_missing_text(owner))
        } else {
            None
        },
        _ => None,
    }
}

/// The sub-command at position `i` of `cs` is the first one refused when
/// the list runs on `m`: the commands before it all apply, and it does not.
pub open spec fn first_refusal(cs: Seq<OntologyCommand>, m: OntologyModel, i: int) -> bool {
    &&& 0 <= i < cs.len()
    &&& match run_all(cs.subrange(0, i), m) {
        Some(mi) => step(cs[i], mi) is None,
        None => false,
    }
}

/// Position of the first command of `cs` refused when the commands run
/// in order on `m`.
pub open spec fn first_refused(cs: Seq<OntologyCommand>, m: OntologyModel) -> Option<int>
    decreases cs.len(),
{
    if cs.len() == 0 {
        None
    } else {
        match step(cs[0], m) {
            None => Some(0),
            Some(m1) => match first_refused(cs.subrange(1, cs.len() as int), m1) {
                Some(j) => Some(j + 1),
                None => None,
            },
        }
    }
}

/// The first refusal of a run is the one `first_refused` finds.
pub proof fn lemma_first_refused(cs: Seq<OntologyCommand>, m: OntologyModel, i: int)
    requires
        first_refusal(cs, m, i),
    ensures
        first_refused(cs, m) == Some(i),
    decreases i,
{
    if i == 0 {
        assert(cs.subrange(0, 0) =~= Seq::<OntologyCommand>::empty());
    } else {
        let pre = cs.subrange(0, i);
        let tail = cs.subrange(1, cs.len() as int);
        assert(pre[0] == cs[0]);
        assert(pre.subrange(1, pre.len() as int) =~= tail.subrange(0, i - 1));
        match step(cs[0], m) {
            Some(m1) => {
                assert(tail[i - 1] == cs[i]);
                lemma_first_refused(tail, m1, i - 1);
            },
            None => {},
        }
    }
}

/// A run that goes through refuses nothing.
proof fn lemma_run_all_refuses_nothing(cs: Seq<OntologyCommand>, m: OntologyModel)
    requires
        run_all(cs, m) is Some,
    ensures
        first_refused(cs, m) is None,
    decreases cs.len(),
{
    if cs.len() > 0 {
        if let Some(m1) = step(cs[0], m) {
            lemma_run_all_refuses_nothing(cs.subrange(1, cs.len() as int), m1);
        }
    }
}

/// The message a command is refused with, where this library states it:
/// that of a missing target, and for a batch the position and stated
/// message of its first refused command.
pub open spec fn refusal(c: OntologyCommand, m: OntologyModel) -> Option<Seq<char>>
    decreases c,
{
    match c {
        OntologyCommand::Batch { commands, .. } => {
            let cs = commands@;
            match first_refused(cs, m) {
                Some(i) => if 0 <= i < cs.len() {
                    match run_all(cs.subrange(0, i), m) {
                        Some(mi) => {
                            proof {
                                assert(decreases_to!(commands => cs));
                                assert(decreases_to!(cs => cs[i]));
                            }
                            match refusal(cs[i], mi) {
                                Some(t) => Some(batch_failure_text(i as nat, t)),
                                None => None,
                            }
                        },
                        None => None,
                    }
                } else {
                    None
                },
                None => None,
            }
        },
        _ => missing_target(c, m),
    }
}

/// The message of a refused batch: the position of the refused
/// sub-command, counted from zero, and that sub-command's own message.
pub open spec fn batch_failure_text(i: nat, sub: Seq<char>) -> Seq<char> {
    "batch command #"@ + decimal(i) + " failed: "@ + sub
}

/// The collection with its first element keyed `id` moved to the end.
pub open spec fn moved_to_end<T: Keyed>(s: Seq<T::V>, id: Seq<char>) -> Seq<T::V> {
    match first_match(s, key_is::<T>(id)) {
        Some(k) => s.remove(k).push(s[k]),
        None => s,
    }
}

/// The deletions whose inverse gives the deleted elements back, at the
/// end of their collections: those of a constraint, index, object mapping
/// or link mapping from a collection whose keys are unique, those of an
/// edge type when edge ids and triples are unique, endpoints exist and
/// link mapping ids are unique, and those of a node type when moreover
/// node ids and labels, index ids and object mapping ids are unique.
pub open spec fn undo_reinstates(c: OntologyCommand, m: OntologyModel) -> bool {
    match c {
        OntologyCommand::RemoveIndex { .. } => keys_unique::<IndexDef>(m.indexes),
        OntologyCommand::DeleteObjectMapping { .. } => keys_unique::<ObjectMappingDef>(m.object_mappings),
        OntologyCommand::DeleteLinkMapping { .. } => keys_unique::<LinkMappingDef>(m.link_mappings),
        OntologyCommand::DeleteEdge { .. } => keys_unique::<EdgeTypeDef>(m.edge_types) && triples_unique(
            m.edge_types,
        ) && endpoints_exist(m.node_types, m.edge_types) && keys_unique::<LinkMappingDef>(m.link_mappings),
        OntologyCommand::RemoveConstraint { node_id, .. } => match first_match(
            m.node_types,
            key_is::<NodeTypeDef>(node_id@),
        ) {
            Some(i) => keys_unique::<ConstraintDef>(m.node_types[i].constraints),
            None => true,
        },
        OntologyCommand::DeleteProperty { owner, .. } => match owner_props(m, owner) {
            Some(props) => keys_unique::<PropertyDef>(props) && (owner_is_node(owner) ==> match first_match(
                m.node_types,
                key_is::<NodeTypeDef>(owner_id(owner)),
            ) {
                Some(i) => keys_unique::<ConstraintDef>(m.node_types[i].constraints),
                None => true,
            }) && keys_unique::<IndexDef>(m.indexes) && keys_unique::<ObjectMappingDef>(m.object_mappings),
            None => true,
        },
        OntologyCommand::DeleteNode { .. } => keys_unique::<NodeTypeDef>(m.node_types) && labels_unique(
            m.node_types,
        ) && keys_unique::<EdgeTypeDef>(m.edge_types) && triples_unique(m.edge_types) && endpoints_exist(
            m.node_types,
            m.edge_types,
        ) && keys_unique::<IndexDef>(m.indexes) && keys_unique::<ObjectMappingDef>(m.object_mappings)
            && keys_unique::<LinkMappingDef>(m.link_mappings),
        _ => false,
    }
}

/// The ontology a deletion and its inverse lead to: the deleted element
/// back in its collection, at the end; for an edge or node type, also
/// the elements its deletion dropped, each after those it kept.
pub open spec fn reinstated(c: OntologyCommand, m: OntologyModel) -> OntologyModel {
    match c {
        OntologyCommand::RemoveIndex { index_id } => OntologyModel {
            indexes: moved_to_end::<IndexDef>(m.indexes, index_id@),
            ..m
        },
        OntologyCommand::DeleteObjectMapping { id } => OntologyModel {
            object_mappings: moved_to_end::<ObjectMappingDef>(m.object_mappings, id@),
            ..m
        },
        OntologyCommand::DeleteLinkMapping { id } => OntologyModel {
            link_mappings: moved_to_end::<LinkMappingDef>(m.link_mappings, id@),
            ..m
        },
        OntologyCommand::DeleteProperty { owner, property_id } => property_reinstated(m, owner, property_id@),
        OntologyCommand::RemoveConstraint { node_id, constraint_id } => match first_match(
            m.node_types,
            key_is::<NodeTypeDef>(node_id@),
        ) {
            Some(i) => OntologyModel {
                node_types: m.node_types.update(
                    i,
                    NodeModel {
                        constraints: moved_to_end::<ConstraintDef>(m.node_types[i].constraints, constraint_id@),
                        ..m.node_types[i]
                    },
                ),
                ..m
            },
            None => m,
        },
        OntologyCommand::DeleteNode { node_id } => OntologyModel {
            node_types: moved_to_end::<NodeTypeDef>(m.node_types, node_id@),
            edge_types: m.edge_types.filter(|e: EdgeModel| !touches(e, node_id@)) + m.edge_types.filter(
                |e: EdgeModel| touches(e, node_id@),
            ),
            link_mappings: m.link_mappings.filter(
                |l: LinkMappingModel| !removed_edge_id(m.edge_types, node_id@, l.edge_type_id),
            ) + m.link_mappings.filter(
                |l: LinkMappingModel| removed_edge_id(m.edge_types, node_id@, l.edge_type_id),
            ),
            indexes: m.indexes.filter(|x: IndexModel| !(x.node_id == node_id@)) + m.indexes.filter(
                |x: IndexModel| x.node_id == node_id@,
            ),
            object_mappings: m.object_mappings.filter(|o: ObjectMappingModel| !(o.node_type_id == node_id@))
                + m.object_mappings.filter(|o: ObjectMappingModel| o.node_type_id == node_id@),
            ..m
        },
        OntologyCommand::DeleteEdge { edge_id } => OntologyModel {
            edge_types: moved_to_end::<EdgeTypeDef>(m.edge_types, edge_id@),
            link_mappings: m.link_mappings.filter(|l: LinkMappingModel| !(l.edge_type_id == edge_id@))
                + m.link_mappings.filter(|l: LinkMappingModel| l.edge_type_id == edge_id@),
            ..m
        },
        _ => m,
    }
}

/// What a property deletion and its inverse lead to: the property back
/// at the end of its owner's list, the constraints and indexes naming it
/// back after those that were kept, everything else as it was.
pub open spec fn property_reinstated(m: OntologyModel, o: PropertyOwner, pid: Seq<char>) -> OntologyModel {
    match owner_props(m, o) {
        Some(props) => {
            let m1 = with_owner_props(m, o, moved_to_end::<PropertyDef>(props, pid));
            let m2 = if owner_is_node(o) {
                match first_match(m.node_types, key_is::<NodeTypeDef>(owner_id(o))) {
                    Some(i) => OntologyModel {
                        node_types: m1.node_types.update(
                            i,
                            NodeModel {
                                constraints: m.node_types[i].constraints.filter(
                                    |c: ConstraintModel| !c.property_ids.contains(pid),
                                ) + m.node_types[i].constraints.filter(
                                    |c: ConstraintModel| c.property_ids.contains(pid),
                                ),
                                ..m1.node_types[i]
                            },
                        ),
                        ..m1
                    },
                    None => m1,
                }
            } else {
                m1
            };
            OntologyModel {
                indexes: m.indexes.filter(
                    |x: IndexModel| !(x.node_id == owner_id(o) && x.property_ids.contains(pid)),
                ) + m.indexes.filter(|x: IndexModel| x.node_id == owner_id(o) && x.property_ids.contains(pid)),
                ..m2
            }
        },
        None => m,
    }
}

/// Undoing a property deletion gives back the same ontology up to order:
/// every node and edge type keeps its id and, as multisets, its
/// properties and constraints; the indexes hold the same elements; the
/// mappings, rules and registries are unchanged.
pub proof fn lemma_property_deletion_undone_up_to_order(c: OntologyCommand, m: OntologyModel)
    requires
        c is DeleteProperty,
        undo_reinstates(c, m),
    ensures
        reinstated(c, m).node_types.len() == m.node_types.len(),
        reinstated(c, m).edge_types.len() == m.edge_types.len(),
        forall|j: int|
            0 <= j < m.node_types.len() ==> (#[trigger] reinstated(c, m).node_types[j]).id == m.node_types[j].id
                && reinstated(c, m).node_types[j].properties.to_multiset()
                == m.node_types[j].properties.to_multiset()
                && reinstated(c, m).node_types[j].constraints.to_multiset()
                == m.node_types[j].constraints.to_multiset(),
        forall|j: int|
            0 <= j < m.edge_types.len() ==> (#[trigger] reinstated(c, m).edge_types[j]).id == m.edge_types[j].id
                && reinstated(c, m).edge_types[j].properties.to_multiset()
                == m.edge_types[j].properties.to_multiset(),
        reinstated(c, m).indexes.to_multiset() == m.indexes.to_multiset(),
        reinstated(c, m).object_mappings == m.object_mappings,
        reinstated(c, m).link_mappings == m.link_mappings,
        reinstated(c, m).rules == m.rules,
        reinstated(c, m).registries == m.registries,
{
    if let OntologyCommand::DeleteProperty { owner, property_id } = c {
        let pid = property_id@;
        let o = owner;
        let oid = owner_id(o);
        let r = property_reinstated(m, o, pid);
        if let Some(props) = owner_props(m, o) {
            lemma_moved_to_end_permutes::<PropertyDef>(props, pid);
            lemma_split_permutes(m.indexes, |x: IndexModel| x.node_id == oid && x.property_ids.contains(pid));
            assert((|y: IndexModel| !(|x: IndexModel| x.node_id == oid && x.property_ids.contains(pid))(y)) =~= (
            |x: IndexModel| !(x.node_id == oid && x.property_ids.contains(pid))));
            let mp = moved_to_end::<PropertyDef>(props, pid);
            match o {
                PropertyOwner::Node { type_id } => {
                    let i = first_match(m.node_types, key_is::<NodeTypeDef>(oid)).unwrap();
                    lemma_first_match_props(m.node_types, key_is::<NodeTypeDef>(oid));
                    let cs = m.node_types[i].constraints;
                    lemma_split_permutes(cs, |q: ConstraintModel| q.property_ids.contains(pid));
                    assert((|y: ConstraintModel| !(|q: ConstraintModel| q.property_ids.contains(pid))(y)) =~= (
                    |q: ConstraintModel| !q.property_ids.contains(pid)));
                    let m1 = with_owner_props(m, o, mp);
                    assert(m1.node_types == m.node_types.update(i, NodeModel { properties: mp, ..m.node_types[i] }));
                    assert forall|j: int| 0 <= j < m.node_types.len() implies (#[trigger] r.node_types[j]).id
                        == m.node_types[j].id && r.node_types[j].properties.to_multiset()
                        == m.node_types[j].properties.to_multiset() && r.node_types[j].constraints.to_multiset()
                        == m.node_types[j].constraints.to_multiset() by {
                        if j != i {
                            assert(r.node_types[j] == m.node_types[j]);
                        }
                    }
                },
                PropertyOwner::Edge { type_id } => {
                    let i = first_match(m.edge_types, key_is::<EdgeTypeDef>(oid)).unwrap();
                    lemma_first_match_props(m.edge_types, key_is::<EdgeTypeDef>(oid));
                    assert(r.edge_types == m.edge_types.update(i, EdgeModel { properties: mp, ..m.edge_types[i] }));
                    assert forall|j: int| 0 <= j < m.edge_types.len() implies (#[trigger] r.edge_types[j]).id
                        == m.edge_types[j].id && r.edge_types[j].properties.to_multiset()
                        == m.edge_types[j].properties.to_multiset() by {
                        if j != i {
                            assert(r.edge_types[j] == m.edge_types[j]);
                        }
                    }
                },
            }
        }
    }
}

/// In a well-formed ontology, undoing the deletion of a node type, edge
/// type, index, object mapping or link mapping reinstates what was
/// deleted.
pub proof fn lemma_well_formed_deletions_reinstate(c: OntologyCommand, m: OntologyModel)
    requires
        well_formed(m),
        c is DeleteNode || c is DeleteEdge || c is RemoveIndex || c is DeleteObjectMapping || c is DeleteLinkMapping,
    ensures
        undo_reinstates(c, m),
{
}

/// In a well-formed ontology nothing names a node type id that is not
/// taken.
proof fn lemma_fresh_node_unreferenced(m: OntologyModel, id: Seq<char>)
    requires
        well_formed(m),
        !has_key::<NodeTypeDef>(m.node_types, id),
    ensures
        node_unreferenced(m, id),
{
    assert forall|j: int| 0 <= j < m.edge_types.len() implies !touches(#[trigger] m.edge_types[j], id) by {
        assert(has_key::<NodeTypeDef>(m.node_types, m.edge_types[j].source_node_id));
        assert(has_key::<NodeTypeDef>(m.node_types, m.edge_types[j].target_node_id));
    }
    assert forall|j: int| 0 <= j < m.indexes.len() implies (#[trigger] m.indexes[j]).node_id != id by {
        assert(has_key::<NodeTypeDef>(m.node_types, m.indexes[j].node_id));
    }
    assert forall|j: int| 0 <= j < m.object_mappings.len() implies (
    #[trigger] m.object_mappings[j]).node_type_id != id by {
        assert(has_key::<NodeTypeDef>(m.node_types, m.object_mappings[j].node_type_id));
    }
}

/// In a well-formed ontology no link mapping names an edge type id that
/// is not taken.
proof fn lemma_fresh_edge_unreferenced(m: OntologyModel, id: Seq<char>)
    requires
        well_formed(m),
        !has_key::<EdgeTypeDef>(m.edge_types, id),
    ensures
        edge_unreferenced(m, id),
{
    assert forall|j: int| 0 <= j < m.link_mappings.len() implies (
    #[trigger] m.link_mappings[j]).edge_type_id != id by {
        assert(has_key::<EdgeTypeDef>(m.edge_types, m.link_mappings[j].edge_type_id));
    }
}

/// In a well-formed ontology, undoing a successful addition or rename of a
/// node or edge type restores the ontology exactly.
pub proof fn lemma_well_formed_additions_restore(c: OntologyCommand, m: OntologyModel)
    requires
        well_formed(m),
        step(c, m) is Some,
        c is AddNode || c is CreateNodeType || c is RenameNode || c is AddEdge || c is CreateEdgeType
            || c is RenameEdge,
    ensures
        undo_restores(c, m),
{
    match c {
        OntologyCommand::AddNode { id, .. } => lemma_fresh_node_unreferenced(m, id@),
        OntologyCommand::CreateNodeType { node } => lemma_fresh_node_unreferenced(m, node@.id),
        OntologyCommand::AddEdge { id, .. } => lemma_fresh_edge_unreferenced(m, id@),
        OntologyCommand::CreateEdgeType { edge } => lemma_fresh_edge_unreferenced(m, edge@.id),
        OntologyCommand::RenameNode { node_id, .. } => {
            let ns = m.node_types;
            lemma_first_match_props(ns, key_is::<NodeTypeDef>(node_id@));
            if let Some(i) = first_match(ns, key_is::<NodeTypeDef>(node_id@)) {
                if label_taken_by_other(ns, ns[i].label, node_id@) {
                    let j = choose|j: int|
                        0 <= j < ns.len() && (#[trigger] ns[j]).label == ns[i].label && ns[j].id != node_id@;
                    assert(ns[i].id == node_id@);
                }
            }
        },
        OntologyCommand::RenameEdge { edge_id, .. } => {
            let es = m.edge_types;
            lemma_first_match_props(es, key_is::<EdgeTypeDef>(edge_id@));
            if let Some(i) = first_match(es, key_is::<EdgeTypeDef>(edge_id@)) {
                if edge_triple_taken(es, es[i].label, es[i].source_node_id, es[i].target_node_id, Some(edge_id@)) {
                    let j = choose|j: int|
                        0 <= j < es.len() && (#[trigger] es[j]).label == es[i].label && es[j].source_node_id
                            == es[i].source_node_id && es[j].target_node_id == es[i].target_node_id && Some(
                            edge_id@,
                        ) != Some(es[j].id);
                    assert(es[i].id == edge_id@);
                }
            }
        },
        _ => {},
    }
}

/// Filtering a collection with unique keys keeps them unique.
proof fn lemma_filter_keys_unique<T: Keyed>(s: Seq<T::V>, p: spec_fn(T::V) -> bool)
    requires
        keys_unique::<T>(s),
    ensures
        keys_unique::<T>(s.filter(p)),
        forall|i: int| 0 <= i < s.filter(p).len() ==> s.contains(#[trigger] s.filter(p)[i]),
    decreases s.len(),
{
    broadcast use vstd::seq_lib::group_filter_ensures;
    reveal(Seq::filter);
    if s.len() > 0 {
        let d = s.drop_last();
        assert forall|i: int, j: int|
            0 <= i < d.len() && 0 <= j < d.len() && i != j implies T::key_of(#[trigger] d[i])
            != T::key_of(#[trigger] d[j]) by {
            assert(d[i] == s[i] && d[j] == s[j]);
        }
        lemma_filter_keys_unique::<T>(d, p);
        let fd = d.filter(p);
        if p(s.last()) {
            let f = fd.push(s.last());
            assert forall|i: int| 0 <= i < fd.len() implies T::key_of(#[trigger] fd[i]) != T::key_of(s.last()) by {
                assert(d.contains(fd[i]));
                let k = choose|k: int| 0 <= k < d.len() && d[k] == fd[i];
                assert(s[k] == d[k]);
            }
            assert forall|i: int, j: int|
                0 <= i < f.len() && 0 <= j < f.len() && i != j implies T::key_of(#[trigger] f[i])
                != T::key_of(#[trigger] f[j]) by {
                if i < fd.len() && j < fd.len() {
                    assert(f[i] == fd[i] && f[j] == fd[j]);
                } else if i < fd.len() {
                    assert(f[i] == fd[i]);
                } else {
                    assert(f[j] == fd[j]);
                }
            }
            assert forall|i: int| 0 <= i < f.len() implies s.contains(#[trigger] f[i]) by {
                if i < fd.len() {
                    assert(d.contains(fd[i]));
                    let k = choose|k: int| 0 <= k < d.len() && d[k] == fd[i];
                    assert(s[k] == d[k]);
                } else {
                    assert(s[s.len() - 1] == s.last());
                }
            }
        } else {
            assert forall|i: int| 0 <= i < fd.len() implies s.contains(#[trigger] fd[i]) by {
                assert(d.contains(fd[i]));
                let k = choose|k: int| 0 <= k < d.len() && d[k] == fd[i];
                assert(s[k] == d[k]);
            }
        }
    }
}

/// Splitting a collection by a predicate and putting the parts back one
/// after the other keeps its elements.
pub proof fn lemma_split_permutes<A>(s: Seq<A>, p: spec_fn(A) -> bool)
    ensures
        (s.filter(|x: A| !p(x)) + s.filter(p)).to_multiset() == s.to_multiset(),
    decreases s.len(),
{
    broadcast use vstd::seq_lib::group_filter_ensures, vstd::seq_lib::group_to_multiset_ensures;
    let np = |x: A| !p(x);
    if s.len() == 0 {
        reveal(Seq::filter);
        assert(s.filter(np) + s.filter(p) =~= s);
    } else {
        let d = s.drop_last();
        let x = s.last();
        lemma_split_permutes(d, p);
        let a = d.filter(np);
        let b = d.filter(p);
        assert(d.push(x) =~= s);
        d.lemma_filter_push(x, p);
        d.lemma_filter_push(x, np);
        vstd::seq_lib::lemma_multiset_commutative(a, b);
        if p(x) {
            assert(s.filter(np) == a);
            assert(s.filter(p) == b.push(x));
            vstd::seq_lib::lemma_multiset_commutative(a, b.push(x));
            assert(b.push(x).to_multiset() == b.to_multiset().insert(x));
            assert(a.to_multiset().add(b.to_multiset().insert(x)) =~= a.to_multiset().add(b.to_multiset()).insert(x));
        } else {
            assert(s.filter(np) == a.push(x));
            assert(s.filter(p) == b);
            vstd::seq_lib::lemma_multiset_commutative(a.push(x), b);
            assert(a.push(x).to_multiset() == a.to_multiset().insert(x));
            assert(a.to_multiset().insert(x).add(b.to_multiset()) =~= a.to_multiset().add(b.to_multiset()).insert(x));
        }
        assert(s.to_multiset() == d.to_multiset().insert(x));
    }
}

/// No two elements at different positions are `same`.
pub open spec fn apart<A>(s: Seq<A>, same: spec_fn(A, A) -> bool) -> bool {
    forall|i: int, j: int|
        0 <= i < s.len() && 0 <= j < s.len() && i != j ==> !same(#[trigger] s[i], #[trigger] s[j])
}

/// Elements with the same key.
pub open spec fn same_key<T: Keyed>() -> spec_fn(T::V, T::V) -> bool {
    |a: T::V, b: T::V| T::key_of(a) == T::key_of(b)
}

/// Edge types with the same label and endpoints.
pub open spec fn same_triple() -> spec_fn(EdgeModel, EdgeModel) -> bool {
    |a: EdgeModel, b: EdgeModel|
        a.label == b.label && a.source_node_id == b.source_node_id && a.target_node_id == b.target_node_id
}

/// Splitting a sequence whose elements are pairwise apart gives two parts
/// whose elements are pairwise apart, also across the parts.
proof fn lemma_split_apart<A>(
    s: Seq<A>,
    p: spec_fn(A) -> bool,
    same: spec_fn(A, A) -> bool,
    kept: Seq<A>,
    gone: Seq<A>,
)
    requires
        apart(s, same),
        kept == s.filter(|x: A| !p(x)),
        gone == s.filter(p),
    ensures
        apart(kept, same),
        apart(gone, same),
        forall|a: int, b: int|
            0 <= a < kept.len() && 0 <= b < gone.len() ==> !same(#[trigger] kept[a], #[trigger] gone[b])
                && !same(gone[b], kept[a]),
{
    broadcast use vstd::seq_lib::group_filter_ensures;
    lemma_filter_apart(s, p, same);
    lemma_filter_apart(s, |x: A| !p(x), same);
    assert forall|a: int, b: int| 0 <= a < kept.len() && 0 <= b < gone.len() implies !same(
        #[trigger] kept[a],
        #[trigger] gone[b],
    ) && !same(gone[b], kept[a]) by {
        let x = kept[a];
        let y = gone[b];
        assert(s.contains(x) && s.contains(y));
        let ia = choose|k: int| 0 <= k < s.len() && s[k] == x;
        let ib = choose|k: int| 0 <= k < s.len() && s[k] == y;
        assert(!p(x) && p(y));
    }
}

/// Filtering keeps elements pairwise apart, and every element kept is one
/// of the sequence.
proof fn lemma_filter_apart<A>(s: Seq<A>, p: spec_fn(A) -> bool, same: spec_fn(A, A) -> bool)
    requires
        apart(s, same),
    ensures
        apart(s.filter(p), same),
        forall|i: int| 0 <= i < s.filter(p).len() ==> s.contains(#[trigger] s.filter(p)[i]),
    decreases s.len(),
{
    broadcast use vstd::seq_lib::group_filter_ensures;
    reveal(Seq::filter);
    if s.len() > 0 {
        let d = s.drop_last();
        assert forall|i: int, j: int| 0 <= i < d.len() && 0 <= j < d.len() && i != j implies !same(
            #[trigger] d[i],
            #[trigger] d[j],
        ) by {
            assert(d[i] == s[i] && d[j] == s[j]);
        }
        lemma_filter_apart(d, p, same);
        let fd = d.filter(p);
        assert forall|i: int| 0 <= i < fd.len() implies s.contains(#[trigger] fd[i]) by {
            assert(d.contains(fd[i]));
            let k = choose|k: int| 0 <= k < d.len() && d[k] == fd[i];
            assert(s[k] == d[k]);
        }
        if p(s.last()) {
            let f = fd.push(s.last());
            assert forall|i: int| 0 <= i < fd.len() implies !same(#[trigger] fd[i], s.last()) && !same(
                s.last(),
                fd[i],
            ) by {
                let k = choose|k: int| 0 <= k < d.len() && d[k] == fd[i];
                assert(s[k] == d[k]);
                assert(s[s.len() - 1] == s.last());
            }
            assert forall|i: int, j: int| 0 <= i < f.len() && 0 <= j < f.len() && i != j implies !same(
                #[trigger] f[i],
                #[trigger] f[j],
            ) by {
                if i < fd.len() && j < fd.len() {
                    assert(f[i] == fd[i] && f[j] == fd[j]);
                } else if i < fd.len() {
                    assert(f[i] == fd[i]);
                } else {
                    assert(f[j] == fd[j]);
                }
            }
            assert forall|i: int| 0 <= i < f.len() implies s.contains(#[trigger] f[i]) by {
                if i < fd.len() {
                    assert(f[i] == fd[i]);
                } else {
                    assert(s[s.len() - 1] == s.last());
                }
            }
        }
    }
}

/// The commands re-creating the edge types `es`, one by one in order.
pub open spec fn edge_creations(cs: Seq<OntologyCommand>, es: Seq<EdgeModel>) -> bool {
    &&& cs.len() == es.len()
    &&& forall|k: int| 0 <= k < cs.len() ==> (#[trigger] cs[k] matches OntologyCommand::CreateEdgeType { edge } && edge@ == es[k])
}

/// The commands re-creating the indexes `xs`, one by one in order.
pub open spec fn index_creations(cs: Seq<OntologyCommand>, xs: Seq<IndexModel>) -> bool {
    &&& cs.len() == xs.len()
    &&& forall|k: int| 0 <= k < cs.len() ==> (#[trigger] cs[k] matches OntologyCommand::AddIndex { index } && index@ == xs[k])
}

/// The commands re-creating the object mappings `os`, one by one in order.
pub open spec fn mapping_creations(cs: Seq<OntologyCommand>, os: Seq<ObjectMappingModel>) -> bool {
    &&& cs.len() == os.len()
    &&& forall|k: int| 0 <= k < cs.len() ==> (#[trigger] cs[k] matches OntologyCommand::CreateObjectMapping { mapping } && mapping@ == os[k])
}

/// Re-creating indexes whose keys are new and distinct appends them.
proof fn lemma_run_index_creations(cs: Seq<OntologyCommand>, xs: Seq<IndexModel>, m: OntologyModel)
    requires
        index_creations(cs, xs),
        keys_unique::<IndexDef>(xs),
        forall|i: int, j: int|
            0 <= i < m.indexes.len() && 0 <= j < xs.len() ==> IndexDef::key_of(#[trigger] m.indexes[i])
                != IndexDef::key_of(#[trigger] xs[j]),
    ensures
        run_all(cs, m) == Some(OntologyModel { indexes: m.indexes + xs, ..m }),
    decreases cs.len(),
{
    if cs.len() == 0 {
        assert(m.indexes + xs =~= m.indexes);
    } else {
        let x0 = xs[0];
        assert(cs[0] matches OntologyCommand::AddIndex { index } && index@ == x0);
        assert(!has_key::<IndexDef>(m.indexes, IndexDef::key_of(x0)));
        let m1 = OntologyModel { indexes: m.indexes.push(x0), ..m };
        assert(step(cs[0], m) == Some(m1));
        let rest = cs.subrange(1, cs.len() as int);
        let xrest = xs.subrange(1, xs.len() as int);
        assert forall|k: int| 0 <= k < rest.len() implies (#[trigger] rest[k] matches OntologyCommand::AddIndex { index } && index@ == xrest[k]) by {
            assert(rest[k] == cs[k + 1]);
            assert(xrest[k] == xs[k + 1]);
        }
        assert forall|i: int, j: int|
            0 <= i < xrest.len() && 0 <= j < xrest.len() && i != j implies IndexDef::key_of(#[trigger] xrest[i])
            != IndexDef::key_of(#[trigger] xrest[j]) by {
            assert(xrest[i] == xs[i + 1] && xrest[j] == xs[j + 1]);
        }
        assert forall|i: int, j: int|
            0 <= i < m1.indexes.len() && 0 <= j < xrest.len() implies IndexDef::key_of(#[trigger] m1.indexes[i])
            != IndexDef::key_of(#[trigger] xrest[j]) by {
            assert(xrest[j] == xs[j + 1]);
            if i < m.indexes.len() {
                assert(m1.indexes[i] == m.indexes[i]);
            } else {
                assert(m1.indexes[i] == xs[0]);
            }
        }
        lemma_run_index_creations(rest, xrest, m1);
        assert(m1.indexes + xrest =~= m.indexes + xs);
    }
}

/// Re-creating object mappings whose keys are new and distinct appends
/// them.
proof fn lemma_run_mapping_creations(cs: Seq<OntologyCommand>, os: Seq<ObjectMappingModel>, m: OntologyModel)
    requires
        mapping_creations(cs, os),
        keys_unique::<ObjectMappingDef>(os),
        forall|i: int, j: int|
            0 <= i < m.object_mappings.len() && 0 <= j < os.len() ==> ObjectMappingDef::key_of(
                #[trigger] m.object_mappings[i],
            ) != ObjectMappingDef::key_of(#[trigger] os[j]),
    ensures
        run_all(cs, m) == Some(OntologyModel { object_mappings: m.object_mappings + os, ..m }),
    decreases cs.len(),
{
    if cs.len() == 0 {
        assert(m.object_mappings + os =~= m.object_mappings);
    } else {
        let o0 = os[0];
        assert(cs[0] matches OntologyCommand::CreateObjectMapping { mapping } && mapping@ == o0);
        assert(!has_key::<ObjectMappingDef>(m.object_mappings, ObjectMappingDef::key_of(o0)));
        let m1 = OntologyModel { object_mappings: m.object_mappings.push(o0), ..m };
        assert(step(cs[0], m) == Some(m1));
        let rest = cs.subrange(1, cs.len() as int);
        let orest = os.subrange(1, os.len() as int);
        assert forall|k: int| 0 <= k < rest.len() implies (#[trigger] rest[k] matches OntologyCommand::CreateObjectMapping { mapping } && mapping@ == orest[k]) by {
            assert(rest[k] == cs[k + 1]);
            assert(orest[k] == os[k + 1]);
        }
        assert forall|i: int, j: int|
            0 <= i < orest.len() && 0 <= j < orest.len() && i != j implies ObjectMappingDef::key_of(
            #[trigger] orest[i],
        ) != ObjectMappingDef::key_of(#[trigger] orest[j]) by {
            assert(orest[i] == os[i + 1] && orest[j] == os[j + 1]);
        }
        assert forall|i: int, j: int|
            0 <= i < m1.object_mappings.len() && 0 <= j < orest.len() implies ObjectMappingDef::key_of(
            #[trigger] m1.object_mappings[i],
        ) != ObjectMappingDef::key_of(#[trigger] orest[j]) by {
            assert(orest[j] == os[j + 1]);
            if i < m.object_mappings.len() {
                assert(m1.object_mappings[i] == m.object_mappings[i]);
            } else {
                assert(m1.object_mappings[i] == os[0]);
            }
        }
        lemma_run_mapping_creations(rest, orest, m1);
        assert(m1.object_mappings + orest =~= m.object_mappings + os);
    }
}

/// Re-creating edge types whose endpoints exist, whose ids are new and
/// distinct and whose triples are new and distinct appends them.
proof fn lemma_run_edge_creations(cs: Seq<OntologyCommand>, es: Seq<EdgeModel>, m: OntologyModel)
    requires
        edge_creations(cs, es),
        keys_unique::<EdgeTypeDef>(es),
        apart(es, same_triple()),
        forall|j: int|
            0 <= j < es.len() ==> has_key::<NodeTypeDef>(m.node_types, (#[trigger] es[j]).source_node_id)
                && has_key::<NodeTypeDef>(m.node_types, es[j].target_node_id),
        forall|i: int, j: int|
            0 <= i < m.edge_types.len() && 0 <= j < es.len() ==> EdgeTypeDef::key_of(#[trigger] m.edge_types[i])
                != EdgeTypeDef::key_of(#[trigger] es[j]) && !same_triple()(m.edge_types[i], es[j]),
    ensures
        run_all(cs, m) == Some(OntologyModel { edge_types: m.edge_types + es, ..m }),
    decreases cs.len(),
{
    if cs.len() == 0 {
        assert(m.edge_types + es =~= m.edge_types);
    } else {
        let e0 = es[0];
        assert(cs[0] matches OntologyCommand::CreateEdgeType { edge } && edge@ == e0);
        assert(!has_key::<EdgeTypeDef>(m.edge_types, EdgeTypeDef::key_of(e0)));
        if edge_triple_taken(m.edge_types, e0.label, e0.source_node_id, e0.target_node_id, None) {
            let j = choose|j: int|
                0 <= j < m.edge_types.len() && (#[trigger] m.edge_types[j]).label == e0.label
                    && m.edge_types[j].source_node_id == e0.source_node_id && m.edge_types[j].target_node_id
                    == e0.target_node_id;
            assert(!same_triple()(m.edge_types[j], es[0]));
        }
        let m1 = OntologyModel { edge_types: m.edge_types.push(e0), ..m };
        assert(step(cs[0], m) == Some(m1));
        let rest = cs.subrange(1, cs.len() as int);
        let erest = es.subrange(1, es.len() as int);
        assert forall|k: int| 0 <= k < rest.len() implies (#[trigger] rest[k] matches OntologyCommand::CreateEdgeType { edge } && edge@ == erest[k]) by {
            assert(rest[k] == cs[k + 1]);
            assert(erest[k] == es[k + 1]);
        }
        assert forall|i: int, j: int|
            0 <= i < erest.len() && 0 <= j < erest.len() && i != j implies EdgeTypeDef::key_of(#[trigger] erest[i])
            != EdgeTypeDef::key_of(#[trigger] erest[j]) by {
            assert(erest[i] == es[i + 1] && erest[j] == es[j + 1]);
        }
        assert forall|i: int, j: int|
            0 <= i < erest.len() && 0 <= j < erest.len() && i != j implies !same_triple()(
            #[trigger] erest[i],
            #[trigger] erest[j],
        ) by {
            assert(erest[i] == es[i + 1] && erest[j] == es[j + 1]);
        }
        assert forall|j: int| 0 <= j < erest.len() implies has_key::<NodeTypeDef>(
            m1.node_types,
            (#[trigger] erest[j]).source_node_id,
        ) && has_key::<NodeTypeDef>(m1.node_types, erest[j].target_node_id) by {
            assert(erest[j] == es[j + 1]);
        }
        assert forall|i: int, j: int| 0 <= i < m1.edge_types.len() && 0 <= j < erest.len() implies EdgeTypeDef::key_of(
            #[trigger] m1.edge_types[i],
        ) != EdgeTypeDef::key_of(#[trigger] erest[j]) && !same_triple()(m1.edge_types[i], erest[j]) by {
            assert(erest[j] == es[j + 1]);
            if i < m.edge_types.len() {
                assert(m1.edge_types[i] == m.edge_types[i]);
            } else {
                assert(m1.edge_types[i] == es[0]);
            }
        }
        lemma_run_edge_creations(rest, erest, m1);
        assert(m1.edge_types + erest =~= m.edge_types + es);
    }
}

/// An object mapping of node type `nid` that maps property `pid`: one a
/// deletion of that property changes.
pub open spec fn mapping_loses(nid: Seq<char>, pid: Seq<char>) -> spec_fn(ObjectMappingModel) -> bool {
    |o: ObjectMappingModel|
        o.node_type_id == nid && o.property_mappings.filter(
            |pm: PropertyMappingModel| pm.property_id == pid,
        ).len() > 0
}

/// The commands putting the object mappings `rs` back, one by one in
/// order, each by its id.
pub open spec fn restore_cmds(cs: Seq<OntologyCommand>, rs: Seq<ObjectMappingModel>) -> bool {
    &&& cs.len() == rs.len()
    &&& forall|k: int|
        0 <= k < cs.len() ==> (#[trigger] cs[k] matches OntologyCommand::UpdateObjectMapping { id, mapping }
            && id@ == rs[k].id && mapping@ == rs[k])
}

/// Putting back, by id, elements of a collection with unique keys into a
/// version of it with the same keys, in which every other position
/// already holds its element, gives the collection back.
proof fn lemma_run_restores(
    cs: Seq<OntologyCommand>,
    rs: Seq<ObjectMappingModel>,
    oms: Seq<ObjectMappingModel>,
    m: OntologyModel,
)
    requires
        restore_cmds(cs, rs),
        keys_unique::<ObjectMappingDef>(oms),
        m.object_mappings.len() == oms.len(),
        forall|j: int| 0 <= j < oms.len() ==> (#[trigger] m.object_mappings[j]).id == oms[j].id,
        forall|j: int|
            0 <= j < oms.len() ==> m.object_mappings[j] == oms[j] || rs.contains(#[trigger] oms[j]),
        forall|k: int| 0 <= k < rs.len() ==> oms.contains(#[trigger] rs[k]),
    ensures
        run_all(cs, m) == Some(OntologyModel { object_mappings: oms, ..m }),
    decreases cs.len(),
{
    let cur = m.object_mappings;
    if cs.len() == 0 {
        assert(cur =~= oms);
    } else {
        let r0 = rs[0];
        assert(oms.contains(r0));
        let j0 = choose|j: int| 0 <= j < oms.len() && oms[j] == r0;
        assert(cur[j0].id == r0.id);
        assert forall|j: int| 0 <= j < j0 implies !key_is::<ObjectMappingDef>(r0.id)(#[trigger] cur[j]) by {
            assert(cur[j].id == oms[j].id);
        }
        lemma_first_match_scan(cur, key_is::<ObjectMappingDef>(r0.id), j0);
        let cur1 = cur.update(j0, r0);
        let m1 = OntologyModel { object_mappings: cur1, ..m };
        assert(cs[0] matches OntologyCommand::UpdateObjectMapping { id, mapping } && id@ == r0.id && mapping@ == r0);
        assert(step(cs[0], m) == Some(m1));
        let rest = cs.subrange(1, cs.len() as int);
        let rrest = rs.subrange(1, rs.len() as int);
        assert forall|k: int| 0 <= k < rest.len() implies (#[trigger] rest[k] matches OntologyCommand::UpdateObjectMapping { id, mapping } && id@ == rrest[k].id && mapping@ == rrest[k]) by {
            assert(rest[k] == cs[k + 1]);
            assert(rrest[k] == rs[k + 1]);
        }
        assert forall|j: int| 0 <= j < oms.len() implies (#[trigger] m1.object_mappings[j]).id == oms[j].id by {
            if j != j0 {
                assert(cur1[j] == cur[j]);
            }
        }
        assert forall|j: int| 0 <= j < oms.len() implies m1.object_mappings[j] == oms[j] || rrest.contains(
            #[trigger] oms[j],
        ) by {
            if j != j0 {
                assert(cur1[j] == cur[j]);
                if cur[j] != oms[j] {
                    assert(rs.contains(oms[j]));
                    let k = choose|k: int| 0 <= k < rs.len() && rs[k] == oms[j];
                    if k == 0 {
                        assert(oms[j].id == oms[j0].id);
                    } else {
                        assert(rrest[k - 1] == rs[k]);
                    }
                }
            }
        }
        assert forall|k: int| 0 <= k < rrest.len() implies oms.contains(#[trigger] rrest[k]) by {
            assert(rrest[k] == rs[k + 1]);
        }
        lemma_run_restores(rest, rrest, oms, m1);
    }
}

/// The commands re-adding the constraints `gs` to node type `nid`, one by
/// one in order.
pub open spec fn constraint_creations(cs: Seq<OntologyCommand>, nid: Seq<char>, gs: Seq<ConstraintModel>) -> bool {
    &&& cs.len() == gs.len()
    &&& forall|k: int|
        0 <= k < cs.len() ==> (#[trigger] cs[k] matches OntologyCommand::AddConstraint { node_id, constraint }
            && node_id@ == nid && constraint@ == gs[k])
}

/// Re-adding constraints whose keys are new and distinct to a node type
/// appends them to its constraints.
proof fn lemma_run_constraint_creations(
    cs: Seq<OntologyCommand>,
    nid: Seq<char>,
    gs: Seq<ConstraintModel>,
    m: OntologyModel,
    i: int,
)
    requires
        constraint_creations(cs, nid, gs),
        first_match(m.node_types, key_is::<NodeTypeDef>(nid)) == Some(i),
        keys_unique::<ConstraintDef>(gs),
        forall|a: int, b: int|
            0 <= a < m.node_types[i].constraints.len() && 0 <= b < gs.len() ==> ConstraintDef::key_of(
                #[trigger] m.node_types[i].constraints[a],
            ) != ConstraintDef::key_of(#[trigger] gs[b]),
    ensures
        run_all(cs, m) == Some(
            OntologyModel {
                node_types: m.node_types.update(
                    i,
                    NodeModel { constraints: m.node_types[i].constraints + gs, ..m.node_types[i] },
                ),
                ..m
            },
        ),
    decreases cs.len(),
{
    lemma_first_match_props(m.node_types, key_is::<NodeTypeDef>(nid));
    let n = m.node_types[i];
    if cs.len() == 0 {
        assert(n.constraints + gs =~= n.constraints);
        assert(m.node_types.update(i, NodeModel { constraints: n.constraints + gs, ..n }) =~= m.node_types);
    } else {
        let g0 = gs[0];
        assert(cs[0] matches OntologyCommand::AddConstraint { node_id, constraint } && node_id@ == nid && constraint@ == g0);
        assert(!has_key::<ConstraintDef>(n.constraints, ConstraintDef::key_of(g0)));
        let n1 = NodeModel { constraints: n.constraints.push(g0), ..n };
        let m1 = OntologyModel { node_types: m.node_types.update(i, n1), ..m };
        assert(step(cs[0], m) == Some(m1));
        lemma_first_match_stable::<NodeTypeDef>(m.node_types, m1.node_types, nid, i);
        let rest = cs.subrange(1, cs.len() as int);
        let grest = gs.subrange(1, gs.len() as int);
        assert forall|k: int| 0 <= k < rest.len() implies (#[trigger] rest[k] matches OntologyCommand::AddConstraint { node_id, constraint } && node_id@ == nid && constraint@ == grest[k]) by {
            assert(rest[k] == cs[k + 1]);
            assert(grest[k] == gs[k + 1]);
        }
        assert forall|x: int, y: int|
            0 <= x < grest.len() && 0 <= y < grest.len() && x != y implies ConstraintDef::key_of(#[trigger] grest[x])
            != ConstraintDef::key_of(#[trigger] grest[y]) by {
            assert(grest[x] == gs[x + 1] && grest[y] == gs[y + 1]);
        }
        assert forall|a: int, b: int|
            0 <= a < m1.node_types[i].constraints.len() && 0 <= b < grest.len() implies ConstraintDef::key_of(
            #[trigger] m1.node_types[i].constraints[a],
        ) != ConstraintDef::key_of(#[trigger] grest[b]) by {
            assert(grest[b] == gs[b + 1]);
            if a < n.constraints.len() {
                assert(m1.node_types[i].constraints[a] == n.constraints[a]);
            } else {
                assert(m1.node_types[i].constraints[a] == gs[0]);
            }
        }
        lemma_run_constraint_creations(rest, nid, grest, m1, i);
        assert(n1.constraints + grest =~= n.constraints + gs);
        assert(m1.node_types.update(i, NodeModel { constraints: n1.constraints + grest, ..n1 }) =~= m.node_types.update(
            i,
            NodeModel { constraints: n.constraints + gs, ..n },
        ));
    }
}

/// The commands re-creating the link mappings `ls`, one by one in order.
pub open spec fn link_creations(cs: Seq<OntologyCommand>, ls: Seq<LinkMappingModel>) -> bool {
    &&& cs.len() == ls.len()
    &&& forall|k: int| 0 <= k < cs.len() ==> (#[trigger] cs[k] matches OntologyCommand::CreateLinkMapping { mapping } && mapping@ == ls[k])
}

/// Re-creating link mappings whose keys are new and distinct appends them.
proof fn lemma_run_link_creations(cs: Seq<OntologyCommand>, ls: Seq<LinkMappingModel>, m: OntologyModel)
    requires
        link_creations(cs, ls),
        keys_unique::<LinkMappingDef>(ls),
        forall|i: int, j: int|
            0 <= i < m.link_mappings.len() && 0 <= j < ls.len() ==> LinkMappingDef::key_of(#[trigger] m.link_mappings[i])
                != LinkMappingDef::key_of(#[trigger] ls[j]),
    ensures
        run_all(cs, m) == Some(OntologyModel { link_mappings: m.link_mappings + ls, ..m }),
    decreases cs.len(),
{
    if cs.len() == 0 {
        assert(m.link_mappings + ls =~= m.link_mappings);
    } else {
        let l0 = ls[0];
        assert(cs[0] matches OntologyCommand::CreateLinkMapping { mapping } && mapping@ == l0);
        assert(!has_key::<LinkMappingDef>(m.link_mappings, LinkMappingDef::key_of(l0)));
        let m1 = OntologyModel { link_mappings: m.link_mappings.push(l0), ..m };
        assert(step(cs[0], m) == Some(m1));
        let rest = cs.subrange(1, cs.len() as int);
        let lrest = ls.subrange(1, ls.len() as int);
        assert forall|k: int| 0 <= k < rest.len() implies (#[trigger] rest[k] matches OntologyCommand::CreateLinkMapping { mapping } && mapping@ == lrest[k]) by {
            assert(rest[k] == cs[k + 1]);
            assert(lrest[k] == ls[k + 1]);
        }
        assert forall|i: int, j: int|
            0 <= i < lrest.len() && 0 <= j < lrest.len() && i != j implies LinkMappingDef::key_of(
            #[trigger] lrest[i],
        ) != LinkMappingDef::key_of(#[trigger] lrest[j]) by {
            assert(lrest[i] == ls[i + 1] && lrest[j] == ls[j + 1]);
        }
        assert forall|i: int, j: int|
            0 <= i < m1.link_mappings.len() && 0 <= j < lrest.len() implies LinkMappingDef::key_of(
            #[trigger] m1.link_mappings[i],
        ) != LinkMappingDef::key_of(#[trigger] lrest[j]) by {
            assert(lrest[j] == ls[j + 1]);
            if i < m.link_mappings.len() {
                assert(m1.link_mappings[i] == m.link_mappings[i]);
            } else {
                assert(m1.link_mappings[i] == ls[0]);
            }
        }
        lemma_run_link_creations(rest, lrest, m1);
        assert(m1.link_mappings + lrest =~= m.link_mappings + ls);
    }
}

/// Removing an element from a collection with unique keys leaves no
/// element with its key.
proof fn lemma_remove_unique_key<T: Keyed>(s: Seq<T::V>, k: int)
    requires
        keys_unique::<T>(s),
        0 <= k < s.len(),
    ensures
        !has_key::<T>(s.remove(k), T::key_of(s[k])),
{
    let r = s.remove(k);
    assert forall|j: int| 0 <= j < r.len() implies T::key_of(#[trigger] r[j]) != T::key_of(s[k]) by {
        if j < k {
            assert(r[j] == s[j]);
        } else {
            assert(r[j] == s[j + 1]);
        }
    }
}

/// Putting the removed element back after a keyed removal succeeds and
/// moves it to the end.
proof fn lemma_keyed_remove_push<T: Keyed>(s: Seq<T::V>, id: Seq<char>, k: int)
    requires
        keys_unique::<T>(s),
        first_match(s, key_is::<T>(id)) == Some(k),
    ensures
        0 <= k < s.len(),
        keyed_remove::<T>(s, id) == Some(s.remove(k)),
        keyed_push::<T>(s.remove(k), s[k]) == Some(moved_to_end::<T>(s, id)),
{
    lemma_first_match_props(s, key_is::<T>(id));
    lemma_remove_unique_key::<T>(s, k);
}

/// Moving an element to the end keeps the same elements, as a multiset.
pub proof fn lemma_moved_to_end_permutes<T: Keyed>(s: Seq<T::V>, id: Seq<char>)
    ensures
        moved_to_end::<T>(s, id).to_multiset() == s.to_multiset(),
{
    if let Some(k) = first_match(s, key_is::<T>(id)) {
        lemma_first_match_props(s, key_is::<T>(id));
        let r = s.remove(k);
        assert(s =~= s.subrange(0, k) + seq![s[k]] + s.subrange(k + 1, s.len() as int));
        assert(r =~= s.subrange(0, k) + s.subrange(k + 1, s.len() as int));
        vstd::seq_lib::lemma_multiset_commutative(s.subrange(0, k) + seq![s[k]], s.subrange(k + 1, s.len() as int));
        vstd::seq_lib::lemma_multiset_commutative(s.subrange(0, k), seq![s[k]]);
        vstd::seq_lib::lemma_multiset_commutative(s.subrange(0, k), s.subrange(k + 1, s.len() as int));
        vstd::seq_lib::lemma_multiset_commutative(r, seq![s[k]]);
        assert(r.push(s[k]) =~= r + seq![s[k]]);
    }
}

/// Undoing a deletion of a constraint, index, object mapping, link
/// mapping, edge type or node type gives back the same ontology up to
/// order: the rules and registries are unchanged and the node types
/// (their constraints, for a constraint), edge types, indexes and
/// mappings hold the same elements (a deleted edge or node type comes
/// back with everything its deletion dropped).
pub proof fn lemma_deletion_undone_up_to_order(c: OntologyCommand, m: OntologyModel)
    requires
        undo_reinstates(c, m),
        !(c is DeleteProperty),
    ensures
        reinstated(c, m).node_types.len() == m.node_types.len(),
        !(c is DeleteNode) ==> forall|i: int|
            0 <= i < m.node_types.len() ==> (#[trigger] reinstated(c, m).node_types[i]).id == m.node_types[i].id
                && reinstated(c, m).node_types[i].properties == m.node_types[i].properties
                && reinstated(c, m).node_types[i].constraints.to_multiset()
                == m.node_types[i].constraints.to_multiset(),
        reinstated(c, m).node_types.to_multiset() == m.node_types.to_multiset() || c is RemoveConstraint,
        reinstated(c, m).edge_types.to_multiset() == m.edge_types.to_multiset(),
        reinstated(c, m).indexes.to_multiset() == m.indexes.to_multiset(),
        reinstated(c, m).object_mappings.to_multiset() == m.object_mappings.to_multiset(),
        reinstated(c, m).link_mappings.to_multiset() == m.link_mappings.to_multiset(),
        reinstated(c, m).rules == m.rules,
        reinstated(c, m).registries == m.registries,
{
    match c {
        OntologyCommand::RemoveConstraint { node_id, constraint_id } => {
            lemma_first_match_props(m.node_types, key_is::<NodeTypeDef>(node_id@));
            if let Some(i) = first_match(m.node_types, key_is::<NodeTypeDef>(node_id@)) {
                let cs = m.node_types[i].constraints;
                lemma_moved_to_end_permutes::<ConstraintDef>(cs, constraint_id@);
                let ns = m.node_types.update(
                    i,
                    NodeModel { constraints: moved_to_end::<ConstraintDef>(cs, constraint_id@), ..m.node_types[i] },
                );
                assert(reinstated(c, m).node_types == ns);
                assert(ns.len() == m.node_types.len());
                assert forall|j: int| 0 <= j < m.node_types.len() implies (#[trigger] ns[j]).id == m.node_types[j].id
                    && ns[j].properties == m.node_types[j].properties && ns[j].constraints.to_multiset()
                    == m.node_types[j].constraints.to_multiset() by {
                    if j != i {
                        assert(ns[j] == m.node_types[j]);
                    }
                }
            }
        },
        OntologyCommand::DeleteNode { node_id } => {
            let id = node_id@;
            lemma_first_match_props(m.node_types, key_is::<NodeTypeDef>(id));
            lemma_moved_to_end_permutes::<NodeTypeDef>(m.node_types, id);
            lemma_split_permutes(m.edge_types, |e: EdgeModel| touches(e, id));
            assert((|x: EdgeModel| !(|e: EdgeModel| touches(e, id))(x)) =~= (|e: EdgeModel| !touches(e, id)));
            lemma_split_permutes(m.link_mappings, |l: LinkMappingModel| removed_edge_id(m.edge_types, id, l.edge_type_id));
            assert((|x: LinkMappingModel| !(|l: LinkMappingModel| removed_edge_id(m.edge_types, id, l.edge_type_id))(x))
                =~= (|l: LinkMappingModel| !removed_edge_id(m.edge_types, id, l.edge_type_id)));
            lemma_split_permutes(m.indexes, |x: IndexModel| x.node_id == id);
            assert((|y: IndexModel| !(|x: IndexModel| x.node_id == id)(y)) =~= (|x: IndexModel| !(x.node_id == id)));
            lemma_split_permutes(m.object_mappings, |o: ObjectMappingModel| o.node_type_id == id);
            assert((|y: ObjectMappingModel| !(|o: ObjectMappingModel| o.node_type_id == id)(y)) =~= (|o: ObjectMappingModel|
                !(o.node_type_id == id)));
        },
        OntologyCommand::DeleteEdge { edge_id } => {
            lemma_moved_to_end_permutes::<EdgeTypeDef>(m.edge_types, edge_id@);
            lemma_split_permutes(m.link_mappings, |l: LinkMappingModel| l.edge_type_id == edge_id@);
            assert((|x: LinkMappingModel| !(|l: LinkMappingModel| l.edge_type_id == edge_id@)(x)) =~= (|l: LinkMappingModel| !(l.edge_type_id == edge_id@)));
        },
        OntologyCommand::RemoveIndex { index_id } => lemma_moved_to_end_permutes::<IndexDef>(m.indexes, index_id@),
        OntologyCommand::DeleteObjectMapping { id } => lemma_moved_to_end_permutes::<ObjectMappingDef>(
            m.object_mappings,
            id@,
        ),
        OntologyCommand::DeleteLinkMapping { id } => lemma_moved_to_end_permutes::<LinkMappingDef>(
            m.link_mappings,
            id@,
        ),
        _ => {},
    }
}

/// The commands whose inverse restores the ontology exactly: in-place
/// edits always, the addition of a node or edge type when nothing already
/// names its id, a rename when the renamed type was alone with its label
/// (between its endpoints, for an edge type), the addition of a property when nothing on its owner already names a
/// property of that id, and batches whose commands each have that property where they run.
/// Deletions are undone up to order: see [`undo_reinstates`].
pub open spec fn undo_restores(c: OntologyCommand, m: OntologyModel) -> bool
    decreases c,
{
    match c {
        OntologyCommand::Batch { commands, .. } => {
            proof {
                assert(decreases_to!(commands => commands@));
            }
            all_undo_restore(commands@, m)
        },
        OntologyCommand::UpdateNodeDescription { .. }
        | OntologyCommand::SetNodeGlossaryAnchors { .. }
        | OntologyCommand::UpdateEdgeCardinality { .. }
        | OntologyCommand::UpdateEdgeDescription { .. }
        | OntologyCommand::SetEdgeGlossaryAnchors { .. }
        | OntologyCommand::UpdateProperty { .. }
        | OntologyCommand::AddConstraint { .. }
        | OntologyCommand::AddIndex { .. }
        | OntologyCommand::CreateObjectMapping { .. }
        | OntologyCommand::UpdateObjectMapping { .. }
        | OntologyCommand::CreateLinkMapping { .. }
        | OntologyCommand::UpdateLinkMapping { .. } => true,
        OntologyCommand::AddNode { id, .. } => node_unreferenced(m, id@),
        OntologyCommand::CreateNodeType { node } => node_unreferenced(m, node@.id),
        OntologyCommand::RenameNode { node_id, .. } => node_label_alone(m, node_id@),
        OntologyCommand::AddEdge { id, .. } => edge_unreferenced(m, id@),
        OntologyCommand::CreateEdgeType { edge } => edge_unreferenced(m, edge@.id),
        OntologyCommand::RenameEdge { edge_id, .. } => edge_triple_alone(m, edge_id@),
        OntologyCommand::AddProperty { owner, property } => property_unreferenced(m, owner, property@.id),
        _ => false,
    }
}

/// Each command of a run restores exactly on undo, applied to the
/// ontology the commands before it produced (the run stops at a rejected
/// command).
pub open spec fn all_undo_restore(cs: Seq<OntologyCommand>, m: OntologyModel) -> bool
    decreases cs,
{
    if cs.len() == 0 {
        true
    } else {
        undo_restores(cs[0], m) && match step(cs[0], m) {
            Some(m1) => all_undo_restore(cs.subrange(1, cs.len() as int), m1),
            None => true,
        }
    }
}

/// Reversing a sequence with one more element puts that element first.
proof fn lemma_reverse_push<A>(s: Seq<A>, x: A)
    ensures
        s.push(x).reverse() == seq![x] + s.reverse(),
{
    assert(s.push(x).reverse() =~= seq![x] + s.reverse());
}

/// The outcome that survives validation: a step result that is well formed.
pub open spec fn validated(o: Option<OntologyModel>) -> Option<OntologyModel> {
    match o {
        Some(m) => if well_formed(m) {
            Some(m)
        } else {
            None
        },
        None => None,
    }
}

/// Element ids a command touches.
pub open spec fn affected_ids(c: OntologyCommand) -> Seq<Seq<char>>
    decreases c,
{
    match c {
        OntologyCommand::AddNode { id, .. } => seq![id@],
        OntologyCommand::CreateNodeType { node } => seq![node.id@],
        OntologyCommand::DeleteNode { node_id }
        | OntologyCommand::RenameNode { node_id, .. }
        | OntologyCommand::UpdateNodeDescription { node_id, .. }
        | OntologyCommand::SetNodeGlossaryAnchors { node_id, .. } => seq![node_id@],
        OntologyCommand::AddEdge { id, .. } => seq![id@],
        OntologyCommand::CreateEdgeType { edge } => seq![edge.id@],
        OntologyCommand::DeleteEdge { edge_id }
        | OntologyCommand::RenameEdge { edge_id, .. }
        | OntologyCommand::UpdateEdgeCardinality { edge_id, .. }
        | OntologyCommand::UpdateEdgeDescription { edge_id, .. }
        | OntologyCommand::SetEdgeGlossaryAnchors { edge_id, .. } => seq![edge_id@],
        OntologyCommand::AddProperty { owner, .. }
        | OntologyCommand::DeleteProperty { owner, .. }
        | OntologyCommand::UpdateProperty { owner, .. } => seq![owner_id(owner)],
        OntologyCommand::AddConstraint { node_id, .. }
        | OntologyCommand::RemoveConstraint { node_id, .. } => seq![node_id@],
        OntologyCommand::AddIndex { .. } | OntologyCommand::RemoveIndex { .. } => Seq::empty(),
        OntologyCommand::CreateObjectMapping { mapping } => seq![mapping.id@],
        OntologyCommand::UpdateObjectMapping { id, .. }
        | OntologyCommand::DeleteObjectMapping { id } => seq![id@],
        OntologyCommand::CreateLinkMapping { mapping } => seq![mapping.id@],
        OntologyCommand::UpdateLinkMapping { id, .. }
        | OntologyCommand::DeleteLinkMapping { id } => seq![id@],
        OntologyCommand::Batch { commands, .. } => affected_ids_all(commands@),
    }
}

/// Element ids a sequence of commands touches, in order.
pub open spec fn affected_ids_all(cs: Seq<OntologyCommand>) -> Seq<Seq<char>>
    decreases cs,
{
    if cs.len() == 0 {
        Seq::empty()
    } else {
        affected_ids_all(cs.subrange(0, cs.len() - 1)) + affected_ids(cs[cs.len() - 1])
    }
}

/// Running `a` then `b` is running `a + b`: a batch is sequential
/// composition that stops at the first rejected command.
pub proof fn lemma_run_all_concat(a: Seq<OntologyCommand>, b: Seq<OntologyCommand>, m: OntologyModel)
    ensures
        run_all(a + b, m) == (match run_all(a, m) {
            Some(m1) => run_all(b, m1),
            None => None,
        }),
    decreases a.len(),
{
    if a.len() == 0 {
        assert(a + b =~= b);
    } else {
        let t = a.subrange(1, a.len() as int);
        assert((a + b)[0] == a[0]);
        assert((a + b).subrange(1, (a + b).len() as int) =~= t + b);
        match step(a[0], m) {
            Some(m1) => {
                lemma_run_all_concat(t, b, m1);
            },
            None => {},
        }
    }
}

/// A batch of one command has that command's effect.
pub proof fn lemma_batch_of_one(c: OntologyCommand, m: OntologyModel)
    ensures
        run_all(seq![c], m) == step(c, m),
{
    assert(seq![c].subrange(1, 1) =~= Seq::<OntologyCommand>::empty());
    match step(c, m) {
        Some(m1) => {
            assert(run_all(Seq::<OntologyCommand>::empty(), m1) == Some(m1));
        },
        None => {},
    }
}

// ---------------------------------------------------------------------------
// Execution helpers
// ---------------------------------------------------------------------------

/// Whether a command result agrees with the expected model.
pub open spec fn outcome_matches(
    r: Result<CommandResult, String>,
    expected: Option<OntologyModel>,
) -> bool {
    match r {
        Ok(res) => expected == Some(res.new_ontology@),
        Err(_) => expected is None,
    }
}

pub(crate) fn message(a: &str, b: &str, c: &str) -> (r: String)
    ensures
        r@ == a@ + b@ + c@,
{
    let mut s = String::from_str(a);
    s.append(b);
    s.append(c);
    s
}

fn node_label_taken(nodes: &Vec<NodeTypeDef>, label: &str) -> (r: bool)
    ensures
        r == has_node_label(models(nodes@), label@),
{
    let n = nodes.len();
    let mut i: usize = 0;
    while i < n
        invariant
            n == nodes.len(),
            i <= n,
            forall|j: int| 0 <= j < i ==> nodes@[j]@.label != label@,
        decreases n - i,
    {
        if str_equal(nodes[i].label.as_str(), label) {
            assert(models(nodes@)[i as int].label == label@);
            return true;
        }
        i = i + 1;
    }
    assert(!has_node_label(models(nodes@), label@));
    false
}

fn label_taken_elsewhere(nodes: &Vec<NodeTypeDef>, label: &str, id: &str) -> (r: bool)
    ensures
        r == label_taken_by_other(models(nodes@), label@, id@),
{
    let n = nodes.len();
    let mut i: usize = 0;
    while i < n
        invariant
            n == nodes.len(),
            i <= n,
            forall|j: int| 0 <= j < i ==> !(nodes@[j]@.label == label@ && nodes@[j]@.id != id@),
        decreases n - i,
    {
        if str_equal(nodes[i].label.as_str(), label) && !str_equal(nodes[i].id.as_str(), id) {
            assert(models(nodes@)[i as int].label == label@);
            return true;
        }
        i = i + 1;
    }
    assert(!label_taken_by_other(models(nodes@), label@, id@));
    false
}

fn triple_taken(
    edges: &Vec<EdgeTypeDef>,
    label: &str,
    src: &str,
    tgt: &str,
    except: Option<&str>,
) -> (r: bool)
    ensures
        r == edge_triple_taken(
            models(edges@),
            label@,
            src@,
            tgt@,
            match except {
                Some(e) => Some(e@),
                None => None,
            },
        ),
{
    let ghost ex = match except {
        Some(e) => Some(e@),
        None => None,
    };
    let n = edges.len();
    let mut i: usize = 0;
    while i < n
        invariant
            n == edges.len(),
            i <= n,
            ex == (match except {
                Some(e) => Some(e@),
                None => None::<Seq<char>>,
            }),
            forall|j: int|
                0 <= j < i ==> !(edges@[j]@.label == label@ && edges@[j]@.source_node_id == src@
                    && edges@[j]@.target_node_id == tgt@ && ex != Some(edges@[j]@.id)),
        decreases n - i,
    {
        let e = &edges[i];
        let excluded = match except {
            Some(x) => str_equal(e.id.as_str(), x),
            None => false,
        };
        if !excluded && str_equal(e.label.as_str(), label) && str_equal(
            e.source_node_id.as_str(),
            src,
        ) && str_equal(e.target_node_id.as_str(), tgt) {
            assert(models(edges@)[i as int] == edges@[i as int]@);
            return true;
        }
        i = i + 1;
    }
    assert(!edge_triple_taken(models(edges@), label@, src@, tgt@, ex));
    false
}

fn edge_removed_with_node(edges: &Vec<EdgeTypeDef>, node_id: &str, edge_id: &str) -> (r: bool)
    ensures
        r == removed_edge_id(models(edges@), node_id@, edge_id@),
{
    let n = edges.len();
    let mut i: usize = 0;
    while i < n
        invariant
            n == edges.len(),
            i <= n,
            forall|j: int| 0 <= j < i ==> !(touches(edges@[j]@, node_id@) && edges@[j]@.id == edge_id@),
        decreases n - i,
    {
        let e = &edges[i];
        if (str_equal(e.source_node_id.as_str(), node_id) || str_equal(
            e.target_node_id.as_str(),
            node_id,
        )) && str_equal(e.id.as_str(), edge_id) {
            assert(models(edges@)[i as int] == edges@[i as int]@);
            return true;
        }
        i = i + 1;
    }
    assert(!removed_edge_id(models(edges@), node_id@, edge_id@));
    false
}

fn exec_add_node(mut ont: OntologyIR, node: NodeTypeDef) -> (r: Result<CommandResult, String>)
    ensures
        outcome_matches(r, add_node_step(ont@, node@)),
        r matches Ok(res) ==> (res.inverse matches OntologyCommand::DeleteNode { node_id } && node_id@
            == node@.id),
        r matches Ok(res) ==> (node_unreferenced(ont@, node@.id) ==> step(res.inverse, res.new_ontology@)
            == Some(ont@)),
{
    if position_of(&ont.node_types, node.id.as_str()).is_some() {
        return Err(message("node with id '", node.id.as_str(), "' already exists"));
    }
    if node_label_taken(&ont.node_types, node.label.as_str()) {
        return Err(message("node with label '", node.label.as_str(), "' already exists"));
    }
    let node_id = node.id.clone();
    let ghost m = ont@;
    proof {
        lemma_models_push(ont.node_types@, node);
        if node_unreferenced(m, node@.id) {
            let ns = m.node_types;
            let id = node@.id;
            lemma_first_match_push_absent::<NodeTypeDef>(ns, node@);
            assert(ns.push(node@).remove(ns.len() as int) =~= ns);
            lemma_filter_all(m.edge_types, |e: EdgeModel| !touches(e, id));
            lemma_filter_all(
                m.link_mappings,
                |l: LinkMappingModel| !removed_edge_id(m.edge_types, id, l.edge_type_id),
            );
            lemma_filter_all(m.indexes, |x: IndexModel| !(x.node_id == id));
            lemma_filter_all(m.object_mappings, |o: ObjectMappingModel| !(o.node_type_id == id));
        }
    }
    ont.node_types.push(node);
    Ok(CommandResult { new_ontology: ont, inverse: OntologyCommand::DeleteNode { node_id } })
}

/// The facts that make a node deletion's inverse succeed: the node can be
/// added back to what is left, then each dropped edge type, index, object
/// mapping and link mapping re-created after those that were kept.
proof fn lemma_undo_node_deletion(
    m: OntologyModel,
    nid: Seq<char>,
    i: int,
    ek: Seq<EdgeModel>,
    eg: Seq<EdgeModel>,
    xk: Seq<IndexModel>,
    xg: Seq<IndexModel>,
    ok: Seq<ObjectMappingModel>,
    og: Seq<ObjectMappingModel>,
    lk: Seq<LinkMappingModel>,
    lg: Seq<LinkMappingModel>,
)
    requires
        keys_unique::<NodeTypeDef>(m.node_types),
        labels_unique(m.node_types),
        keys_unique::<EdgeTypeDef>(m.edge_types),
        triples_unique(m.edge_types),
        endpoints_exist(m.node_types, m.edge_types),
        keys_unique::<IndexDef>(m.indexes),
        keys_unique::<ObjectMappingDef>(m.object_mappings),
        keys_unique::<LinkMappingDef>(m.link_mappings),
        first_match(m.node_types, key_is::<NodeTypeDef>(nid)) == Some(i),
        ek == m.edge_types.filter(|e: EdgeModel| !touches(e, nid)),
        eg == m.edge_types.filter(|e: EdgeModel| touches(e, nid)),
        xk == m.indexes.filter(|x: IndexModel| !(x.node_id == nid)),
        xg == m.indexes.filter(|x: IndexModel| x.node_id == nid),
        ok == m.object_mappings.filter(|o: ObjectMappingModel| !(o.node_type_id == nid)),
        og == m.object_mappings.filter(|o: ObjectMappingModel| o.node_type_id == nid),
        lk == m.link_mappings.filter(|l: LinkMappingModel| !removed_edge_id(m.edge_types, nid, l.edge_type_id)),
        lg == m.link_mappings.filter(|l: LinkMappingModel| removed_edge_id(m.edge_types, nid, l.edge_type_id)),
    ensures
        0 <= i < m.node_types.len(),
        !has_key::<NodeTypeDef>(m.node_types.remove(i), m.node_types[i].id),
        !has_node_label(m.node_types.remove(i), m.node_types[i].label),
        keys_unique::<EdgeTypeDef>(eg),
        apart(eg, same_triple()),
        forall|j: int|
            0 <= j < eg.len() ==> has_key::<NodeTypeDef>(
                m.node_types.remove(i).push(m.node_types[i]),
                (#[trigger] eg[j]).source_node_id,
            ) && has_key::<NodeTypeDef>(m.node_types.remove(i).push(m.node_types[i]), eg[j].target_node_id),
        forall|a: int, b: int|
            0 <= a < ek.len() && 0 <= b < eg.len() ==> EdgeTypeDef::key_of(#[trigger] ek[a])
                != EdgeTypeDef::key_of(#[trigger] eg[b]) && !same_triple()(ek[a], eg[b]),
        keys_unique::<IndexDef>(xg),
        forall|a: int, b: int|
            0 <= a < xk.len() && 0 <= b < xg.len() ==> IndexDef::key_of(#[trigger] xk[a]) != IndexDef::key_of(
                #[trigger] xg[b],
            ),
        keys_unique::<ObjectMappingDef>(og),
        forall|a: int, b: int|
            0 <= a < ok.len() && 0 <= b < og.len() ==> ObjectMappingDef::key_of(#[trigger] ok[a])
                != ObjectMappingDef::key_of(#[trigger] og[b]),
        keys_unique::<LinkMappingDef>(lg),
        forall|a: int, b: int|
            0 <= a < lk.len() && 0 <= b < lg.len() ==> LinkMappingDef::key_of(#[trigger] lk[a])
                != LinkMappingDef::key_of(#[trigger] lg[b]),
{
    broadcast use vstd::seq_lib::group_filter_ensures;
    let ns = m.node_types;
    lemma_first_match_props(ns, key_is::<NodeTypeDef>(nid));
    lemma_remove_unique_key::<NodeTypeDef>(ns, i);
    let r = ns.remove(i);
    if has_node_label(r, ns[i].label) {
        let j = choose|j: int| 0 <= j < r.len() && (#[trigger] r[j]).label == ns[i].label;
        if j < i {
            assert(r[j] == ns[j]);
        } else {
            assert(r[j] == ns[j + 1]);
        }
    }
    // Edge types.
    let es = m.edge_types;
    let pe = |e: EdgeModel| touches(e, nid);
    assert(ek == es.filter(|x: EdgeModel| !pe(x))) by {
        assert((|x: EdgeModel| !pe(x)) =~= (|e: EdgeModel| !touches(e, nid)));
    }
    assert(apart(es, same_key::<EdgeTypeDef>()));
    assert(apart(es, same_triple()));
    lemma_split_apart(es, pe, same_key::<EdgeTypeDef>(), ek, eg);
    lemma_split_apart(es, pe, same_triple(), ek, eg);
    lemma_filter_apart(es, pe, same_triple());
    let rn = r.push(ns[i]);
    assert forall|j: int| 0 <= j < eg.len() implies has_key::<NodeTypeDef>(rn, (#[trigger] eg[j]).source_node_id)
        && has_key::<NodeTypeDef>(rn, eg[j].target_node_id) by {
        assert(es.contains(eg[j]));
        let k = choose|k: int| 0 <= k < es.len() && es[k] == eg[j];
        assert(has_key::<NodeTypeDef>(ns, es[k].source_node_id));
        assert(has_key::<NodeTypeDef>(ns, es[k].target_node_id));
        lemma_key_survives_removal(ns, i, es[k].source_node_id, nid);
        lemma_key_survives_removal(ns, i, es[k].target_node_id, nid);
    }
    // Indexes, object mappings, link mappings.
    let px = |x: IndexModel| x.node_id == nid;
    assert(xk == m.indexes.filter(|y: IndexModel| !px(y))) by {
        assert((|y: IndexModel| !px(y)) =~= (|x: IndexModel| !(x.node_id == nid)));
    }
    assert(apart(m.indexes, same_key::<IndexDef>()));
    lemma_split_apart(m.indexes, px, same_key::<IndexDef>(), xk, xg);
    let po = |o: ObjectMappingModel| o.node_type_id == nid;
    assert(ok == m.object_mappings.filter(|y: ObjectMappingModel| !po(y))) by {
        assert((|y: ObjectMappingModel| !po(y)) =~= (|o: ObjectMappingModel| !(o.node_type_id == nid)));
    }
    assert(apart(m.object_mappings, same_key::<ObjectMappingDef>()));
    lemma_split_apart(m.object_mappings, po, same_key::<ObjectMappingDef>(), ok, og);
    let pl = |l: LinkMappingModel| removed_edge_id(es, nid, l.edge_type_id);
    assert(lk == m.link_mappings.filter(|y: LinkMappingModel| !pl(y))) by {
        assert((|y: LinkMappingModel| !pl(y)) =~= (|l: LinkMappingModel|
            !removed_edge_id(m.edge_types, nid, l.edge_type_id)));
    }
    assert(apart(m.link_mappings, same_key::<LinkMappingDef>()));
    lemma_split_apart(m.link_mappings, pl, same_key::<LinkMappingDef>(), lk, lg);
}

/// A node type other than the removed one that had key `k` still has it;
/// the removed one comes back at the end.
proof fn lemma_key_survives_removal(ns: Seq<NodeModel>, i: int, k: Seq<char>, nid: Seq<char>)
    requires
        0 <= i < ns.len(),
        NodeTypeDef::key_of(ns[i]) == nid,
        has_key::<NodeTypeDef>(ns, k),
    ensures
        has_key::<NodeTypeDef>(ns.remove(i).push(ns[i]), k),
{
    let rn = ns.remove(i).push(ns[i]);
    let j = choose|j: int| 0 <= j < ns.len() && NodeTypeDef::key_of(#[trigger] ns[j]) == k;
    if j == i {
        assert(rn[rn.len() - 1] == ns[i]);
    } else if j < i {
        assert(rn[j] == ns[j]);
    } else {
        assert(rn[j - 1] == ns[j]);
    }
}

/// Running a node deletion's inverse, command group by command group,
/// reinstates the ontology.
proof fn lemma_undo_node_steps(
    m: OntologyModel,
    nid: Seq<char>,
    i: int,
    nm: NodeModel,
    cmds: Seq<OntologyCommand>,
    mnew: OntologyModel,
    eg: Seq<EdgeModel>,
    xg: Seq<IndexModel>,
    og: Seq<ObjectMappingModel>,
    lg: Seq<LinkMappingModel>,
)
    requires
        0 <= i < m.node_types.len(),
        nm == m.node_types[i],
        mnew.node_types == m.node_types.remove(i),
        !has_key::<NodeTypeDef>(mnew.node_types, nm.id),
        !has_node_label(mnew.node_types, nm.label),
        cmds.len() == 1 + eg.len() + xg.len() + og.len() + lg.len(),
        cmds[0] matches OntologyCommand::CreateNodeType { node: n } && n@ == nm,
        edge_creations(cmds.subrange(1, 1 + eg.len() as int), eg),
        index_creations(cmds.subrange(1 + eg.len() as int, 1 + eg.len() + xg.len() as int), xg),
        mapping_creations(
            cmds.subrange(1 + eg.len() + xg.len() as int, 1 + eg.len() + xg.len() + og.len() as int),
            og,
        ),
        link_creations(cmds.subrange(1 + eg.len() + xg.len() + og.len() as int, cmds.len() as int), lg),
        keys_unique::<EdgeTypeDef>(eg),
        apart(eg, same_triple()),
        forall|j: int|
            0 <= j < eg.len() ==> has_key::<NodeTypeDef>(mnew.node_types.push(nm), (#[trigger] eg[j]).source_node_id)
                && has_key::<NodeTypeDef>(mnew.node_types.push(nm), eg[j].target_node_id),
        forall|a: int, b: int|
            0 <= a < mnew.edge_types.len() && 0 <= b < eg.len() ==> EdgeTypeDef::key_of(#[trigger] mnew.edge_types[a])
                != EdgeTypeDef::key_of(#[trigger] eg[b]) && !same_triple()(mnew.edge_types[a], eg[b]),
        keys_unique::<IndexDef>(xg),
        forall|a: int, b: int|
            0 <= a < mnew.indexes.len() && 0 <= b < xg.len() ==> IndexDef::key_of(#[trigger] mnew.indexes[a])
                != IndexDef::key_of(#[trigger] xg[b]),
        keys_unique::<ObjectMappingDef>(og),
        forall|a: int, b: int|
            0 <= a < mnew.object_mappings.len() && 0 <= b < og.len() ==> ObjectMappingDef::key_of(
                #[trigger] mnew.object_mappings[a],
            ) != ObjectMappingDef::key_of(#[trigger] og[b]),
        keys_unique::<LinkMappingDef>(lg),
        forall|a: int, b: int|
            0 <= a < mnew.link_mappings.len() && 0 <= b < lg.len() ==> LinkMappingDef::key_of(
                #[trigger] mnew.link_mappings[a],
            ) != LinkMappingDef::key_of(#[trigger] lg[b]),
    ensures
        run_all(cmds, mnew) == Some(
            OntologyModel {
                node_types: mnew.node_types.push(nm),
                edge_types: mnew.edge_types + eg,
                indexes: mnew.indexes + xg,
                object_mappings: mnew.object_mappings + og,
                link_mappings: mnew.link_mappings + lg,
                ..mnew
            },
        ),
{
    let a: int = 1 + eg.len() as int;
    let b: int = a + xg.len() as int;
    let c: int = b + og.len() as int;
    let c0 = cmds.subrange(0, 1);
    let ec = cmds.subrange(1, a as int);
    let xc = cmds.subrange(a as int, b as int);
    let oc = cmds.subrange(b as int, c as int);
    let lc = cmds.subrange(c as int, cmds.len() as int);
    assert(cmds =~= c0 + ec + xc + oc + lc);
    assert(c0 =~= seq![cmds[0]]);
    let m2 = OntologyModel { node_types: mnew.node_types.push(nm), ..mnew };
    lemma_batch_of_one(cmds[0], mnew);
    assert(step(cmds[0], mnew) == Some(m2));
    lemma_run_all_concat(c0, ec, mnew);
    lemma_run_edge_creations(ec, eg, m2);
    let m3 = OntologyModel { edge_types: m2.edge_types + eg, ..m2 };
    lemma_run_all_concat(c0 + ec, xc, mnew);
    lemma_run_index_creations(xc, xg, m3);
    let m4 = OntologyModel { indexes: m3.indexes + xg, ..m3 };
    lemma_run_all_concat(c0 + ec + xc, oc, mnew);
    lemma_run_mapping_creations(oc, og, m4);
    let m5 = OntologyModel { object_mappings: m4.object_mappings + og, ..m4 };
    lemma_run_all_concat(c0 + ec + xc + oc, lc, mnew);
    lemma_run_link_creations(lc, lg, m5);
}

fn exec_delete_node(mut ont: OntologyIR, node_id: &String) -> (r: Result<CommandResult, String>)
    ensures
        first_match(ont@.node_types, key_is::<NodeTypeDef>(node_id@)) is None ==> (r matches Err(e)
            && e@ == missing_text("node '"@, node_id@)),
        outcome_matches(r, delete_node_step(ont@, node_id@)),
        r matches Ok(res) ==> (undo_reinstates(OntologyCommand::DeleteNode { node_id: *node_id }, ont@)
            ==> step(res.inverse, res.new_ontology@) == Some(
            reinstated(OntologyCommand::DeleteNode { node_id: *node_id }, ont@),
        )),
{
    let ghost m = ont@;
    let idx = match position_of(&ont.node_types, node_id.as_str()) {
        Some(i) => i,
        None => {
            return Err(message("node '", node_id.as_str(), "' not found"));
        },
    };
    proof {
        lemma_models_remove(ont.node_types@, idx as int);
    }
    let node = ont.node_types.remove(idx);
    let ghost nid = node_id@;
    let (kept_edges, removed_edges) = split_matching(
        &ont.edge_types,
        (|e: &EdgeTypeDef| -> (b: bool)
            ensures
                b == touches(e@, nid),
            { str_equal(e.source_node_id.as_str(), node_id.as_str()) || str_equal(e.target_node_id.as_str(), node_id.as_str()) }),
        Ghost(|e: EdgeModel| touches(e, nid)),
    );
    let ghost edges0 = models(ont.edge_types@);
    let (kept_links, removed_links) = split_matching(
        &ont.link_mappings,
        (|l: &LinkMappingDef| -> (b: bool)
            ensures
                b == removed_edge_id(edges0, nid, l@.edge_type_id),
            { edge_removed_with_node(&ont.edge_types, node_id.as_str(), l.edge_type_id.as_str()) }),
        Ghost(|l: LinkMappingModel| removed_edge_id(edges0, nid, l.edge_type_id)),
    );
    let (kept_indexes, removed_indexes) = split_matching(
        &ont.indexes,
        (|x: &IndexDef| -> (b: bool)
            ensures
                b == (x@.node_id == nid),
            { str_equal(x.index_node_id().as_str(), node_id.as_str()) }),
        Ghost(|x: IndexModel| x.node_id == nid),
    );
    let (kept_oms, removed_oms) = split_matching(
        &ont.object_mappings,
        (|o: &ObjectMappingDef| -> (b: bool)
            ensures
                b == (o@.node_type_id == nid),
            { str_equal(o.node_type_id.as_str(), node_id.as_str()) }),
        Ghost(|o: ObjectMappingModel| o.node_type_id == nid),
    );
    ont.edge_types = kept_edges;
    ont.link_mappings = kept_links;
    ont.indexes = kept_indexes;
    ont.object_mappings = kept_oms;
    proof {
        let pe = |e: EdgeModel| touches(e, nid);
        assert((|x: EdgeModel| !pe(x)) =~= (|e: EdgeModel| !touches(e, nid)));
        let pl = |l: LinkMappingModel| removed_edge_id(edges0, nid, l.edge_type_id);
        assert((|x: LinkMappingModel| !pl(x)) =~= (|l: LinkMappingModel|
            !removed_edge_id(m.edge_types, nid, l.edge_type_id)));
        let pi = |x: IndexModel| x.node_id == nid;
        assert((|x: IndexModel| !pi(x)) =~= (|x: IndexModel| !(x.node_id == nid)));
        let po = |o: ObjectMappingModel| o.node_type_id == nid;
        assert((|x: ObjectMappingModel| !po(x)) =~= (|o: ObjectMappingModel|
            !(o.node_type_id == nid)));
    }
    let ghost nm = node@;
    let ghost mnew = ont@;
    let ghost eg = models(removed_edges@);
    let ghost xg = models(removed_indexes@);
    let ghost og = models(removed_oms@);
    let ghost lg = models(removed_links@);
    let ghost ne = eg.len() as int;
    let ghost nx = xg.len() as int;
    let ghost no = og.len() as int;
    proof {
        if undo_reinstates(OntologyCommand::DeleteNode { node_id: *node_id }, m) {
            lemma_undo_node_deletion(
                m,
                nid,
                idx as int,
                mnew.edge_types,
                eg,
                mnew.indexes,
                xg,
                mnew.object_mappings,
                og,
                mnew.link_mappings,
                lg,
            );
        }
    }
    let mut inverse_commands: Vec<OntologyCommand> = Vec::new();
    let description = message("restore deleted node '", node.label.as_str(), "'");
    inverse_commands.push(OntologyCommand::CreateNodeType { node: Box::new(node) });
    let mut i: usize = 0;
    while i < removed_edges.len()
        invariant
            i <= eg.len(),
            eg == models(removed_edges@),
            inverse_commands@.len() == 1 + i,
            inverse_commands@[0] matches OntologyCommand::CreateNodeType { node: n } && n@ == nm,
            edge_creations(inverse_commands@.subrange(1, 1 + i), eg.take(i as int)),
        decreases removed_edges.len() - i,
    {
        let ghost before = inverse_commands@;
        inverse_commands.push(
            OntologyCommand::CreateEdgeType { edge: Box::new(removed_edges[i].deep_copy()) },
        );
        proof {
            let cs = inverse_commands@.subrange(1, i + 2);
            let es = eg.take(i + 1);
            assert forall|k: int| 0 <= k < cs.len() implies (#[trigger] cs[k] matches OntologyCommand::CreateEdgeType { edge } && edge@ == es[k]) by {
                if k < i {
                    assert(cs[k] == before.subrange(1, 1 + i)[k]);
                    assert(es[k] == eg.take(i as int)[k]);
                }
            }
        }
        i = i + 1;
    }
    assert(eg.take(ne) =~= eg);
    let mut i: usize = 0;
    while i < removed_indexes.len()
        invariant
            i <= xg.len(),
            ne == eg.len(),
            xg == models(removed_indexes@),
            inverse_commands@.len() == 1 + ne + i,
            inverse_commands@[0] matches OntologyCommand::CreateNodeType { node: n } && n@ == nm,
            edge_creations(inverse_commands@.subrange(1, 1 + ne), eg),
            index_creations(inverse_commands@.subrange(1 + ne, 1 + ne + i), xg.take(i as int)),
        decreases removed_indexes.len() - i,
    {
        let ghost before = inverse_commands@;
        inverse_commands.push(OntologyCommand::AddIndex { index: removed_indexes[i].deep_copy() });
        proof {
            assert(inverse_commands@.subrange(1, 1 + ne) =~= before.subrange(1, 1 + ne));
            let cs = inverse_commands@.subrange(1 + ne, 1 + ne + i + 1);
            let xs = xg.take(i + 1);
            assert forall|k: int| 0 <= k < cs.len() implies (#[trigger] cs[k] matches OntologyCommand::AddIndex { index } && index@ == xs[k]) by {
                if k < i {
                    assert(cs[k] == before.subrange(1 + ne, 1 + ne + i)[k]);
                    assert(xs[k] == xg.take(i as int)[k]);
                }
            }
        }
        i = i + 1;
    }
    assert(xg.take(nx) =~= xg);
    let mut i: usize = 0;
    while i < removed_oms.len()
        invariant
            i <= og.len(),
            ne == eg.len(),
            nx == xg.len(),
            og == models(removed_oms@),
            inverse_commands@.len() == 1 + ne + nx + i,
            inverse_commands@[0] matches OntologyCommand::CreateNodeType { node: n } && n@ == nm,
            edge_creations(inverse_commands@.subrange(1, 1 + ne), eg),
            index_creations(inverse_commands@.subrange(1 + ne, 1 + ne + nx), xg),
            mapping_creations(inverse_commands@.subrange(1 + ne + nx, 1 + ne + nx + i), og.take(i as int)),
        decreases removed_oms.len() - i,
    {
        let ghost before = inverse_commands@;
        inverse_commands.push(
            OntologyCommand::CreateObjectMapping { mapping: Box::new(removed_oms[i].deep_copy()) },
        );
        proof {
            assert(inverse_commands@.subrange(1, 1 + ne) =~= before.subrange(1, 1 + ne));
            assert(inverse_commands@.subrange(1 + ne, 1 + ne + nx) =~= before.subrange(1 + ne, 1 + ne + nx));
            let cs = inverse_commands@.subrange(1 + ne + nx, 1 + ne + nx + i + 1);
            let os = og.take(i + 1);
            assert forall|k: int| 0 <= k < cs.len() implies (#[trigger] cs[k] matches OntologyCommand::CreateObjectMapping { mapping } && mapping@ == os[k]) by {
                if k < i {
                    assert(cs[k] == before.subrange(1 + ne + nx, 1 + ne + nx + i)[k]);
                    assert(os[k] == og.take(i as int)[k]);
                }
            }
        }
        i = i + 1;
    }
    assert(og.take(no) =~= og);
    let mut i: usize = 0;
    while i < removed_links.len()
        invariant
            i <= lg.len(),
            ne == eg.len(),
            nx == xg.len(),
            no == og.len(),
            lg == models(removed_links@),
            inverse_commands@.len() == 1 + ne + nx + no + i,
            inverse_commands@[0] matches OntologyCommand::CreateNodeType { node: n } && n@ == nm,
            edge_creations(inverse_commands@.subrange(1, 1 + ne), eg),
            index_creations(inverse_commands@.subrange(1 + ne, 1 + ne + nx), xg),
            mapping_creations(inverse_commands@.subrange(1 + ne + nx, 1 + ne + nx + no), og),
            link_creations(inverse_commands@.subrange(1 + ne + nx + no, 1 + ne + nx + no + i), lg.take(i as int)),
        decreases removed_links.len() - i,
    {
        let ghost before = inverse_commands@;
        inverse_commands.push(
            OntologyCommand::CreateLinkMapping { mapping: Box::new(removed_links[i].deep_copy()) },
        );
        proof {
            assert(inverse_commands@.subrange(1, 1 + ne) =~= before.subrange(1, 1 + ne));
            assert(inverse_commands@.subrange(1 + ne, 1 + ne + nx) =~= before.subrange(1 + ne, 1 + ne + nx));
            assert(inverse_commands@.subrange(1 + ne + nx, 1 + ne + nx + no) =~= before.subrange(
                1 + ne + nx,
                1 + ne + nx + no,
            ));
            let cs = inverse_commands@.subrange(1 + ne + nx + no, 1 + ne + nx + no + i + 1);
            let ls = lg.take(i + 1);
            assert forall|k: int| 0 <= k < cs.len() implies (#[trigger] cs[k] matches OntologyCommand::CreateLinkMapping { mapping } && mapping@ == ls[k]) by {
                if k < i {
                    assert(cs[k] == before.subrange(1 + ne + nx + no, 1 + ne + nx + no + i)[k]);
                    assert(ls[k] == lg.take(i as int)[k]);
                }
            }
        }
        i = i + 1;
    }
    assert(lg.take(lg.len() as int) =~= lg);
    proof {
        if undo_reinstates(OntologyCommand::DeleteNode { node_id: *node_id }, m) {
            lemma_undo_node_steps(
                m,
                nid,
                idx as int,
                nm,
                inverse_commands@,
                mnew,
                eg,
                xg,
                og,
                lg,
            );
        }
    }
    Ok(
        CommandResult {
            new_ontology: ont,
            inverse: OntologyCommand::Batch { description, commands: inverse_commands },
        },
    )
}

fn exec_rename_node(mut ont: OntologyIR, node_id: &String, new_label: &String) -> (r: Result<
    CommandResult,
    String,
>)
    ensures
        first_match(ont@.node_types, key_is::<NodeTypeDef>(node_id@)) is None ==> (r matches Err(e)
            && e@ == missing_text("node '"@, node_id@)),
        outcome_matches(r, rename_node_step(ont@, node_id@, new_label@)),
        r matches Ok(res) ==> (node_label_alone(ont@, node_id@) ==> step(res.inverse, res.new_ontology@)
            == Some(ont@)),
{
    let idx = match position_of(&ont.node_types, node_id.as_str()) {
        Some(i) => i,
        None => {
            return Err(message("node '", node_id.as_str(), "' not found"));
        },
    };
    if label_taken_elsewhere(&ont.node_types, new_label.as_str(), node_id.as_str()) {
        return Err(message("cannot rename node: label '", new_label.as_str(), "' is already in use"));
    }
    let ghost before = ont@;
    let ghost s = ont.node_types@;
    let mut node = ont.node_types.remove(idx);
    let old_label = node.label.clone();
    node.label = new_label.clone();
    ont.node_types.insert(idx, node);
    proof {
        assert(ont.node_types@ =~= s.update(idx as int, node));
        lemma_models_update(s, idx as int, node);
        let m0 = models(s);
        let m1 = models(ont.node_types@);
        lemma_first_match_stable::<NodeTypeDef>(m0, m1, node_id@, idx as int);
        assert(m1.update(idx as int, NodeModel { label: old_label@, ..m1[idx as int] }) =~= m0);
        if node_label_alone(before, node_id@) && label_taken_by_other(m1, old_label@, node_id@) {
            let j = choose|j: int|
                0 <= j < m1.len() && (#[trigger] m1[j]).label == old_label@ && m1[j].id != node_id@;
            assert(m1[j] == m0[j]);
            assert(m0[idx as int].label == old_label@);
            assert(label_taken_by_other(m0, m0[idx as int].label, node_id@));
        }
    }
    Ok(
        CommandResult {
            new_ontology: ont,
            inverse: OntologyCommand::RenameNode { node_id: node_id.clone(), new_label: old_label },
        },
    )
}

fn exec_update_node_description(mut ont: OntologyIR, node_id: &String, description: &String) -> (r:
    Result<CommandResult, String>)
    ensures
        first_match(ont@.node_types, key_is::<NodeTypeDef>(node_id@)) is None ==> (r matches Err(e)
            && e@ == missing_text("node '"@, node_id@)),
        outcome_matches(
            r,
            edit_node(ont@, node_id@, (|n: NodeModel| NodeModel { description: description@, ..n })),
        ),
        r matches Ok(res) ==> step(res.inverse, res.new_ontology@) == Some(ont@),
{
    let idx = match position_of(&ont.node_types, node_id.as_str()) {
        Some(i) => i,
        None => {
            return Err(message("node '", node_id.as_str(), "' not found"));
        },
    };
    let ghost s = ont.node_types@;
    let mut node = ont.node_types.remove(idx);
    let old = node.description.clone();
    node.description = description.clone();
    ont.node_types.insert(idx, node);
    proof {
        assert(ont.node_types@ =~= s.update(idx as int, node));
        lemma_models_update(s, idx as int, node);
        let m0 = models(s);
        let m1 = models(ont.node_types@);
        lemma_first_match_stable::<NodeTypeDef>(m0, m1, node_id@, idx as int);
        assert(m1.update(idx as int, NodeModel { description: old@, ..m1[idx as int] }) =~= m0);
    }
    Ok(
        CommandResult {
            new_ontology: ont,
            inverse: OntologyCommand::UpdateNodeDescription {
                node_id: node_id.clone(),
                description: old,
            },
        },
    )
}

fn exec_set_node_anchors(mut ont: OntologyIR, node_id: &String, anchors: &Vec<String>) -> (r: Result<
    CommandResult,
    String,
>)
    ensures
        first_match(ont@.node_types, key_is::<NodeTypeDef>(node_id@)) is None ==> (r matches Err(e)
            && e@ == missing_text("node '"@, node_id@)),
        outcome_matches(
            r,
            edit_node(ont@, node_id@, (|n: NodeModel| NodeModel { glossary_anchors: texts(anchors@), ..n })),
        ),
        r matches Ok(res) ==> step(res.inverse, res.new_ontology@) == Some(ont@),
{
    let idx = match position_of(&ont.node_types, node_id.as_str()) {
        Some(i) => i,
        None => {
            return Err(message("node '", node_id.as_str(), "' not found"));
        },
    };
    let ghost s = ont.node_types@;
    let mut node = ont.node_types.remove(idx);
    let old = copy_texts(&node.glossary_anchors);
    node.glossary_anchors = copy_texts(anchors);
    ont.node_types.insert(idx, node);
    proof {
        assert(ont.node_types@ =~= s.update(idx as int, node));
        lemma_models_update(s, idx as int, node);
        let m0 = models(s);
        let m1 = models(ont.node_types@);
        lemma_first_match_stable::<NodeTypeDef>(m0, m1, node_id@, idx as int);
        assert(m1.update(idx as int, NodeModel { glossary_anchors: texts(old@), ..m1[idx as int] }) =~= m0);
    }
    Ok(
        CommandResult {
            new_ontology: ont,
            inverse: OntologyCommand::SetNodeGlossaryAnchors { node_id: node_id.clone(), anchors: old },
        },
    )
}

fn exec_add_edge(mut ont: OntologyIR, edge: EdgeTypeDef) -> (r: Result<CommandResult, String>)
    ensures
        outcome_matches(r, add_edge_step(ont@, edge@)),
        r matches Ok(res) ==> (res.inverse matches OntologyCommand::DeleteEdge { edge_id }
            && edge_id@ == edge@.id),
        r matches Ok(res) ==> (edge_unreferenced(ont@, edge@.id) ==> step(res.inverse, res.new_ontology@)
            == Some(ont@)),
{
    if position_of(&ont.node_types, edge.source_node_id.as_str()).is_none() {
        return Err(message("source node '", edge.source_node_id.as_str(), "' not found for edge"));
    }
    if position_of(&ont.node_types, edge.target_node_id.as_str()).is_none() {
        return Err(message("target node '", edge.target_node_id.as_str(), "' not found for edge"));
    }
    if position_of(&ont.edge_types, edge.id.as_str()).is_some() {
        return Err(message("edge with id '", edge.id.as_str(), "' already exists"));
    }
    if triple_taken(
        &ont.edge_types,
        edge.label.as_str(),
        edge.source_node_id.as_str(),
        edge.target_node_id.as_str(),
        None,
    ) {
        return Err(message("edge '", edge.label.as_str(), "' between the same endpoints already exists"));
    }
    let edge_id = edge.id.clone();
    let ghost m = ont@;
    proof {
        lemma_models_push(ont.edge_types@, edge);
        if edge_unreferenced(m, edge@.id) {
            let es = m.edge_types;
            let id = edge@.id;
            lemma_first_match_push_absent::<EdgeTypeDef>(es, edge@);
            assert(es.push(edge@).remove(es.len() as int) =~= es);
            lemma_filter_all(m.link_mappings, |l: LinkMappingModel| !(l.edge_type_id == id));
        }
    }
    ont.edge_types.push(edge);
    Ok(CommandResult { new_ontology: ont, inverse: OntologyCommand::DeleteEdge { edge_id } })
}

/// The facts that make an edge deletion's inverse succeed: the edge can
/// be added back to what is left, and the dropped link mappings can be
/// re-created after the kept ones.
proof fn lemma_undo_edge_deletion(
    m: OntologyModel,
    eid: Seq<char>,
    i: int,
    kept: Seq<LinkMappingModel>,
    gone: Seq<LinkMappingModel>,
)
    requires
        keys_unique::<EdgeTypeDef>(m.edge_types),
        triples_unique(m.edge_types),
        endpoints_exist(m.node_types, m.edge_types),
        keys_unique::<LinkMappingDef>(m.link_mappings),
        first_match(m.edge_types, key_is::<EdgeTypeDef>(eid)) == Some(i),
        kept == m.link_mappings.filter(|l: LinkMappingModel| !(l.edge_type_id == eid)),
        gone == m.link_mappings.filter(|l: LinkMappingModel| l.edge_type_id == eid),
    ensures
        0 <= i < m.edge_types.len(),
        add_edge_step(OntologyModel { edge_types: m.edge_types.remove(i), link_mappings: kept, ..m }, m.edge_types[i])
            == Some(OntologyModel { edge_types: m.edge_types.remove(i).push(m.edge_types[i]), link_mappings: kept, ..m }),
        keys_unique::<LinkMappingDef>(gone),
        forall|a: int, b: int|
            0 <= a < kept.len() && 0 <= b < gone.len() ==> LinkMappingDef::key_of(#[trigger] kept[a])
                != LinkMappingDef::key_of(#[trigger] gone[b]),
{
    broadcast use vstd::seq_lib::group_filter_ensures;
    lemma_first_match_props(m.edge_types, key_is::<EdgeTypeDef>(eid));
    let s = m.edge_types;
    let e = s[i];
    lemma_remove_unique_key::<EdgeTypeDef>(s, i);
    let r = s.remove(i);
    assert(has_key::<NodeTypeDef>(m.node_types, e.source_node_id));
    assert(has_key::<NodeTypeDef>(m.node_types, e.target_node_id));
    if edge_triple_taken(r, e.label, e.source_node_id, e.target_node_id, None) {
        let j = choose|j: int|
            0 <= j < r.len() && (#[trigger] r[j]).label == e.label && r[j].source_node_id == e.source_node_id
                && r[j].target_node_id == e.target_node_id;
        if j < i {
            assert(r[j] == s[j]);
        } else {
            assert(r[j] == s[j + 1]);
        }
    }
    let keep = |l: LinkMappingModel| !(l.edge_type_id == eid);
    let drop = |l: LinkMappingModel| l.edge_type_id == eid;
    let l = m.link_mappings;
    lemma_filter_keys_unique::<LinkMappingDef>(l, keep);
    lemma_filter_keys_unique::<LinkMappingDef>(l, drop);
    assert(kept == l.filter(keep));
    assert(gone == l.filter(drop));
    assert forall|a: int, b: int| 0 <= a < kept.len() && 0 <= b < gone.len() implies LinkMappingDef::key_of(
        #[trigger] kept[a],
    ) != LinkMappingDef::key_of(#[trigger] gone[b]) by {
        let x = kept[a];
        let y = gone[b];
        assert(keep(x));
        assert(drop(y));
        let ia = choose|k: int| 0 <= k < l.len() && l[k] == x;
        let ib = choose|k: int| 0 <= k < l.len() && l[k] == y;
        assert(l.contains(x) && l.contains(y));
    }
}

fn exec_delete_edge(mut ont: OntologyIR, edge_id: &String) -> (r: Result<CommandResult, String>)
    ensures
        first_match(ont@.edge_types, key_is::<EdgeTypeDef>(edge_id@)) is None ==> (r matches Err(e)
            && e@ == missing_text("edge '"@, edge_id@)),
        outcome_matches(r, step(OntologyCommand::DeleteEdge { edge_id: *edge_id }, ont@)),
        r matches Ok(res) ==> (undo_reinstates(OntologyCommand::DeleteEdge { edge_id: *edge_id }, ont@)
            ==> step(res.inverse, res.new_ontology@) == Some(
            reinstated(OntologyCommand::DeleteEdge { edge_id: *edge_id }, ont@),
        )),
{
    let ghost m = ont@;
    let idx = match position_of(&ont.edge_types, edge_id.as_str()) {
        Some(i) => i,
        None => {
            return Err(message("edge '", edge_id.as_str(), "' not found"));
        },
    };
    proof {
        lemma_models_remove(ont.edge_types@, idx as int);
    }
    let edge = ont.edge_types.remove(idx);
    let ghost eid = edge_id@;
    let (kept_links, removed_links) = split_matching(
        &ont.link_mappings,
        (|l: &LinkMappingDef| -> (b: bool)
            ensures
                b == (l@.edge_type_id == eid),
            { str_equal(l.edge_type_id.as_str(), edge_id.as_str()) }),
        Ghost(|l: LinkMappingModel| l.edge_type_id == eid),
    );
    ont.link_mappings = kept_links;
    proof {
        let pl = |l: LinkMappingModel| l.edge_type_id == eid;
        assert((|x: LinkMappingModel| !pl(x)) =~= (|l: LinkMappingModel| !(l.edge_type_id == eid)));
    }
    let description = message("restore deleted edge '", edge.id.as_str(), "'");
    let ghost em = edge@;
    let ghost kept = m.link_mappings.filter(|l: LinkMappingModel| !(l.edge_type_id == eid));
    let ghost gone = m.link_mappings.filter(|l: LinkMappingModel| l.edge_type_id == eid);
    let ghost m1 = ont@;
    proof {
        if undo_reinstates(OntologyCommand::DeleteEdge { edge_id: *edge_id }, m) {
            lemma_undo_edge_deletion(m, eid, idx as int, kept, gone);
        }
    }
    if removed_links.len() == 0 {
        proof {
            assert(models(removed_links@).len() == 0);
            assert(m1.link_mappings + gone =~= m1.link_mappings);
        }
        return Ok(
            CommandResult {
                new_ontology: ont,
                inverse: OntologyCommand::CreateEdgeType { edge: Box::new(edge) },
            },
        );
    }
    let mut cmds: Vec<OntologyCommand> = Vec::new();
    cmds.push(OntologyCommand::CreateEdgeType { edge: Box::new(edge) });
    let mut i: usize = 0;
    while i < removed_links.len()
        invariant
            i <= removed_links@.len(),
            cmds@.len() == i + 1,
            cmds@[0] matches OntologyCommand::CreateEdgeType { edge: e } && e@ == em,
            link_creations(cmds@.subrange(1, i + 1), models(removed_links@).take(i as int)),
        decreases removed_links.len() - i,
    {
        let ghost before = cmds@;
        cmds.push(
            OntologyCommand::CreateLinkMapping { mapping: Box::new(removed_links[i].deep_copy()) },
        );
        proof {
            let cs = cmds@.subrange(1, i + 2);
            let ls = models(removed_links@).take(i + 1);
            assert forall|k: int| 0 <= k < cs.len() implies (#[trigger] cs[k] matches OntologyCommand::CreateLinkMapping { mapping } && mapping@ == ls[k]) by {
                if k < i {
                    assert(cs[k] == before.subrange(1, i + 1)[k]);
                    assert(ls[k] == models(removed_links@).take(i as int)[k]);
                }
            }
        }
        i = i + 1;
    }
    proof {
        assert(models(removed_links@).take(removed_links@.len() as int) =~= models(removed_links@));
        if undo_reinstates(OntologyCommand::DeleteEdge { edge_id: *edge_id }, m) {
            let m2 = OntologyModel { edge_types: m1.edge_types.push(em), ..m1 };
            assert(step(cmds@[0], m1) == Some(m2));
            lemma_run_link_creations(cmds@.subrange(1, cmds@.len() as int), gone, m2);
            assert(cmds@.subrange(1, cmds@.len() as int) =~= cmds@.drop_first());
            assert(run_all(cmds@, m1) == run_all(cmds@.subrange(1, cmds@.len() as int), m2));
        }
    }
    Ok(
        CommandResult {
            new_ontology: ont,
            inverse: OntologyCommand::Batch { description, commands: cmds },
        },
    )
}

fn exec_rename_edge(mut ont: OntologyIR, edge_id: &String, new_label: &String) -> (r: Result<
    CommandResult,
    String,
>)
    ensures
        first_match(ont@.edge_types, key_is::<EdgeTypeDef>(edge_id@)) is None ==> (r matches Err(e)
            && e@ == missing_text("edge '"@, edge_id@)),
        outcome_matches(r, rename_edge_step(ont@, edge_id@, new_label@)),
        r matches Ok(res) ==> (edge_triple_alone(ont@, edge_id@) ==> step(res.inverse, res.new_ontology@)
            == Some(ont@)),
{
    let idx = match position_of(&ont.edge_types, edge_id.as_str()) {
        Some(i) => i,
        None => {
            return Err(message("edge '", edge_id.as_str(), "' not found"));
        },
    };
    if triple_taken(
        &ont.edge_types,
        new_label.as_str(),
        ont.edge_types[idx].source_node_id.as_str(),
        ont.edge_types[idx].target_node_id.as_str(),
        Some(edge_id.as_str()),
    ) {
        return Err(message("cannot rename edge: label '", new_label.as_str(), "' with same endpoints already exists"));
    }
    let ghost before = ont@;
    let ghost s = ont.edge_types@;
    let mut edge = ont.edge_types.remove(idx);
    let old_label = edge.label.clone();
    edge.label = new_label.clone();
    ont.edge_types.insert(idx, edge);
    proof {
        assert(ont.edge_types@ =~= s.update(idx as int, edge));
        lemma_models_update(s, idx as int, edge);
        let m0 = models(s);
        let m1 = models(ont.edge_types@);
        lemma_first_match_stable::<EdgeTypeDef>(m0, m1, edge_id@, idx as int);
        assert(m1.update(idx as int, EdgeModel { label: old_label@, ..m1[idx as int] }) =~= m0);
        let e0 = m0[idx as int];
        if edge_triple_alone(before, edge_id@) && edge_triple_taken(
            m1,
            old_label@,
            e0.source_node_id,
            e0.target_node_id,
            Some(edge_id@),
        ) {
            let j = choose|j: int|
                0 <= j < m1.len() && (#[trigger] m1[j]).label == old_label@ && m1[j].source_node_id
                    == e0.source_node_id && m1[j].target_node_id == e0.target_node_id && Some(
                    edge_id@,
                ) != Some(m1[j].id);
            assert(m1[j] == m0[j]);
            assert(edge_triple_taken(m0, e0.label, e0.source_node_id, e0.target_node_id, Some(edge_id@)));
        }
    }
    Ok(
        CommandResult {
            new_ontology: ont,
            inverse: OntologyCommand::RenameEdge { edge_id: edge_id.clone(), new_label: old_label },
        },
    )
}

fn exec_update_edge_cardinality(mut ont: OntologyIR, edge_id: &String, cardinality: Cardinality) -> (r:
    Result<CommandResult, String>)
    ensures
        first_match(ont@.edge_types, key_is::<EdgeTypeDef>(edge_id@)) is None ==> (r matches Err(e)
            && e@ == missing_text("edge '"@, edge_id@)),
        outcome_matches(
            r,
            edit_edge(ont@, edge_id@, (|e: EdgeModel| EdgeModel { cardinality, ..e })),
        ),
        r matches Ok(res) ==> step(res.inverse, res.new_ontology@) == Some(ont@),
{
    let idx = match position_of(&ont.edge_types, edge_id.as_str()) {
        Some(i) => i,
        None => {
            return Err(message("edge '", edge_id.as_str(), "' not found"));
        },
    };
    let ghost s = ont.edge_types@;
    let mut edge = ont.edge_types.remove(idx);
    let old = edge.cardinality;
    edge.cardinality = cardinality;
    ont.edge_types.insert(idx, edge);
    proof {
        assert(ont.edge_types@ =~= s.update(idx as int, edge));
        lemma_models_update(s, idx as int, edge);
        let m0 = models(s);
        let m1 = models(ont.edge_types@);
        lemma_first_match_stable::<EdgeTypeDef>(m0, m1, edge_id@, idx as int);
        assert(m1.update(idx as int, EdgeModel { cardinality: old, ..m1[idx as int] }) =~= m0);
    }
    Ok(
        CommandResult {
            new_ontology: ont,
            inverse: OntologyCommand::UpdateEdgeCardinality {
                edge_id: edge_id.clone(),
                cardinality: old,
            },
        },
    )
}

fn exec_update_edge_description(mut ont: OntologyIR, edge_id: &String, description: &String) -> (r:
    Result<CommandResult, String>)
    ensures
        first_match(ont@.edge_types, key_is::<EdgeTypeDef>(edge_id@)) is None ==> (r matches Err(e)
            && e@ == missing_text("edge '"@, edge_id@)),
        outcome_matches(
            r,
            edit_edge(ont@, edge_id@, (|e: EdgeModel| EdgeModel { description: description@, ..e })),
        ),
        r matches Ok(res) ==> step(res.inverse, res.new_ontology@) == Some(ont@),
{
    let idx = match position_of(&ont.edge_types, edge_id.as_str()) {
        Some(i) => i,
        None => {
            return Err(message("edge '", edge_id.as_str(), "' not found"));
        },
    };
    let ghost s = ont.edge_types@;
    let mut edge = ont.edge_types.remove(idx);
    let old = edge.description.clone();
    edge.description = description.clone();
    ont.edge_types.insert(idx, edge);
    proof {
        assert(ont.edge_types@ =~= s.update(idx as int, edge));
        lemma_models_update(s, idx as int, edge);
        let m0 = models(s);
        let m1 = models(ont.edge_types@);
        lemma_first_match_stable::<EdgeTypeDef>(m0, m1, edge_id@, idx as int);
        assert(m1.update(idx as int, EdgeModel { description: old@, ..m1[idx as int] }) =~= m0);
    }
    Ok(
        CommandResult {
            new_ontology: ont,
            inverse: OntologyCommand::UpdateEdgeDescription {
                edge_id: edge_id.clone(),
                description: old,
            },
        },
    )
}

fn exec_set_edge_anchors(mut ont: OntologyIR, edge_id: &String, anchors: &Vec<String>) -> (r: Result<
    CommandResult,
    String,
>)
    ensures
        first_match(ont@.edge_types, key_is::<EdgeTypeDef>(edge_id@)) is None ==> (r matches Err(e)
            && e@ == missing_text("edge '"@, edge_id@)),
        outcome_matches(
            r,
            edit_edge(ont@, edge_id@, (|e: EdgeModel| EdgeModel { glossary_anchors: texts(anchors@), ..e })),
        ),
        r matches Ok(res) ==> step(res.inverse, res.new_ontology@) == Some(ont@),
{
    let idx = match position_of(&ont.edge_types, edge_id.as_str()) {
        Some(i) => i,
        None => {
            return Err(message("edge '", edge_id.as_str(), "' not found"));
        },
    };
    let ghost s = ont.edge_types@;
    let mut edge = ont.edge_types.remove(idx);
    let old = copy_texts(&edge.glossary_anchors);
    edge.glossary_anchors = copy_texts(anchors);
    ont.edge_types.insert(idx, edge);
    proof {
        assert(ont.edge_types@ =~= s.update(idx as int, edge));
        lemma_models_update(s, idx as int, edge);
        let m0 = models(s);
        let m1 = models(ont.edge_types@);
        lemma_first_match_stable::<EdgeTypeDef>(m0, m1, edge_id@, idx as int);
        assert(m1.update(idx as int, EdgeModel { glossary_anchors: texts(old@), ..m1[idx as int] }) =~= m0);
    }
    Ok(
        CommandResult {
            new_ontology: ont,
            inverse: OntologyCommand::SetEdgeGlossaryAnchors { edge_id: edge_id.clone(), anchors: old },
        },
    )
}


/// Where an owner sits: node or edge list, and its index there.
pub(crate) fn locate_owner(ont: &OntologyIR, owner: &PropertyOwner) -> (r: Option<usize>)
    ensures
        match owner {
            PropertyOwner::Node { type_id } => match r {
                Some(i) => first_match(ont@.node_types, key_is::<NodeTypeDef>(type_id@)) == Some(
                    i as int,
                ),
                None => first_match(ont@.node_types, key_is::<NodeTypeDef>(type_id@)) is None,
            },
            PropertyOwner::Edge { type_id } => match r {
                Some(i) => first_match(ont@.edge_types, key_is::<EdgeTypeDef>(type_id@)) == Some(
                    i as int,
                ),
                None => first_match(ont@.edge_types, key_is::<EdgeTypeDef>(type_id@)) is None,
            },
        },
        r matches Some(i) ==> (owner is Node ==> i < ont.node_types.len()) && (owner is Edge ==> i
            < ont.edge_types.len()),
{
    proof {
        lemma_first_match_props(ont@.node_types, key_is::<NodeTypeDef>(owner_id(*owner)));
        lemma_first_match_props(ont@.edge_types, key_is::<EdgeTypeDef>(owner_id(*owner)));
    }
    match owner {
        PropertyOwner::Node { type_id } => position_of(&ont.node_types, type_id.as_str()),
        PropertyOwner::Edge { type_id } => position_of(&ont.edge_types, type_id.as_str()),
    }
}

/// Copy the property list of the owner at `idx`.
pub(crate) fn owner_props_copy(ont: &OntologyIR, is_node: bool, idx: usize) -> (r: Vec<PropertyDef>)
    requires
        is_node ==> idx < ont.node_types.len(),
        !is_node ==> idx < ont.edge_types.len(),
    ensures
        is_node ==> models(r@) == ont@.node_types[idx as int].properties,
        !is_node ==> models(r@) == ont@.edge_types[idx as int].properties,
{
    if is_node {
        copy_vec(&ont.node_types[idx].properties)
    } else {
        copy_vec(&ont.edge_types[idx].properties)
    }
}

/// Put a property list back on the owner at `idx`.
pub(crate) fn put_owner_props(ont: &mut OntologyIR, owner: &PropertyOwner, idx: usize, props: Vec<PropertyDef>)
    requires
        owner is Node ==> first_match(old(ont)@.node_types, key_is::<NodeTypeDef>(owner_id(*owner)))
            == Some(idx as int),
        owner is Edge ==> first_match(old(ont)@.edge_types, key_is::<EdgeTypeDef>(owner_id(*owner)))
            == Some(idx as int),
        owner is Node ==> idx < old(ont).node_types.len(),
        owner is Edge ==> idx < old(ont).edge_types.len(),
    ensures
        final(ont)@ == with_owner_props(old(ont)@, *owner, models(props@)),
{
    match owner {
        PropertyOwner::Node { .. } => {
            let ghost s = ont.node_types@;
            let mut node = ont.node_types.remove(idx);
            node.properties = props;
            ont.node_types.insert(idx, node);
            proof {
                assert(ont.node_types@ =~= s.update(idx as int, node));
                lemma_models_update(s, idx as int, node);
            }
        },
        PropertyOwner::Edge { .. } => {
            let ghost s = ont.edge_types@;
            let mut edge = ont.edge_types.remove(idx);
            edge.properties = props;
            ont.edge_types.insert(idx, edge);
            proof {
                assert(ont.edge_types@ =~= s.update(idx as int, edge));
                lemma_models_update(s, idx as int, edge);
            }
        },
    }
}

/// The message for an owner that does not exist.
pub open spec fn owner_missing_text(o: PropertyOwner) -> Seq<char> {
    match o {
        PropertyOwner::Node { type_id } => "node '"@ + type_id@ + "' not found"@,
        PropertyOwner::Edge { type_id } => "edge '"@ + type_id@ + "' not found"@,
    }
}

fn owner_missing(owner: &PropertyOwner) -> (r: String)
    ensures
        r@ == owner_missing_text(*owner),
{
    match owner {
        PropertyOwner::Node { type_id } => message("node '", type_id.as_str(), "' not found"),
        PropertyOwner::Edge { type_id } => message("edge '", type_id.as_str(), "' not found"),
    }
}

fn exec_add_property(mut ont: OntologyIR, owner: &PropertyOwner, property: PropertyDef) -> (r:
    Result<CommandResult, String>)
    ensures
        owner_props(ont@, *owner) is None ==> (r matches Err(e) && e@ == owner_missing_text(*owner)),
        outcome_matches(r, add_property_step(ont@, *owner, property@)),
        r matches Ok(res) ==> (res.inverse matches OntologyCommand::DeleteProperty {
            owner: o,
            property_id,
        } && o == *owner && property_id@ == property@.id),
{
    let idx = match locate_owner(&ont, owner) {
        Some(i) => i,
        None => {
            return Err(owner_missing(owner));
        },
    };
    let is_node = match owner {
        PropertyOwner::Node { .. } => true,
        PropertyOwner::Edge { .. } => false,
    };
    let ghost m = ont@;
    let mut props = owner_props_copy(&ont, is_node, idx);
    proof {
        assert(owner_props(m, *owner) == Some(models(props@)));
    }
    if position_of(&props, property.id.as_str()).is_some() {
        return Err(message("property '", property.id.as_str(), "' already exists on its owner"));
    }
    let property_id = property.id.clone();
    proof {
        lemma_models_push(props@, property);
    }
    props.push(property);
    put_owner_props(&mut ont, owner, idx, props);
    Ok(
        CommandResult {
            new_ontology: ont,
            inverse: OntologyCommand::DeleteProperty { owner: owner.copy(), property_id },
        },
    )
}


/// An updated list keeps the position of the first element with key `id`
/// when the element at that position keeps its key.
pub(crate) proof fn lemma_first_match_stable<T: Keyed>(s: Seq<T::V>, t: Seq<T::V>, id: Seq<char>, i: int)
    requires
        first_match(s, key_is::<T>(id)) == Some(i),
        t.len() == s.len(),
        forall|j: int| 0 <= j < i ==> t[j] == s[j],
        T::key_of(t[i]) == id,
    ensures
        first_match(t, key_is::<T>(id)) == Some(i),
{
    lemma_first_match_props(s, key_is::<T>(id));
    lemma_first_match_scan(t, key_is::<T>(id), i);
}

/// Nothing in the ontology refers to a property `pid` of owner `o`: no
/// constraint of the owning node type, no index on the owner and no
/// object-mapping entry of the owning node type names it.
pub open spec fn property_unreferenced(m: OntologyModel, o: PropertyOwner, pid: Seq<char>) -> bool {
    &&& (owner_is_node(o) ==> match first_match(m.node_types, key_is::<NodeTypeDef>(owner_id(o))) {
        Some(i) => forall|k: int|
            0 <= k < m.node_types[i].constraints.len() ==> !(
            #[trigger] m.node_types[i].constraints[k]).property_ids.contains(pid),
        None => true,
    })
    &&& forall|k: int|
        0 <= k < m.indexes.len() ==> !((#[trigger] m.indexes[k]).node_id == owner_id(o)
            && m.indexes[k].property_ids.contains(pid))
    &&& (owner_is_node(o) ==> forall|k: int, j: int|
        0 <= k < m.object_mappings.len() && m.object_mappings[k].node_type_id == owner_id(o) && 0 <= j
            < m.object_mappings[k].property_mappings.len() ==> (
        #[trigger] m.object_mappings[k].property_mappings[j]).property_id != pid)
}

/// Adding a property and then running its inverse, the deletion of that
/// property, restores the ontology exactly, provided nothing referred to
/// a property of that id on the owner beforehand (a deletion also drops
/// the constraints, indexes and mapping entries that name the property).
pub proof fn lemma_add_property_undone(m: OntologyModel, o: PropertyOwner, p: PropertyModel)
    requires
        add_property_step(m, o, p) is Some,
        property_unreferenced(m, o, p.id),
    ensures
        delete_property_step(add_property_step(m, o, p).unwrap(), o, p.id) == Some(m),
{
    let pid = p.id;
    let props = owner_props(m, o).unwrap();
    let grown = props.push(p);
    let m1 = with_owner_props(m, o, grown);
    lemma_owner_props_roundtrip(m, o, grown, props);
    assert(PropertyDef::key_of(p) == pid);
    lemma_first_match_push_absent::<PropertyDef>(props, p);
    assert(grown.remove(props.len() as int) =~= props);
    let back = with_owner_props(m1, o, grown.remove(props.len() as int));
    assert(back == m);
    let m2 = if owner_is_node(o) {
        let i = first_match(back.node_types, key_is::<NodeTypeDef>(owner_id(o))).unwrap();
        lemma_first_match_props(m.node_types, key_is::<NodeTypeDef>(owner_id(o)));
        lemma_filter_all(
            back.node_types[i].constraints,
            |c: ConstraintModel| !c.property_ids.contains(pid),
        );
        assert(back.node_types.update(
            i,
            NodeModel {
                constraints: back.node_types[i].constraints.filter(
                    |c: ConstraintModel| !c.property_ids.contains(pid),
                ),
                ..back.node_types[i]
            },
        ) =~= m.node_types);
        OntologyModel {
            node_types: back.node_types.update(
                i,
                NodeModel {
                    constraints: back.node_types[i].constraints.filter(
                        |c: ConstraintModel| !c.property_ids.contains(pid),
                    ),
                    ..back.node_types[i]
                },
            ),
            ..back
        }
    } else {
        back
    };
    assert(m2 == m);
    lemma_filter_all(
        m2.indexes,
        |x: IndexModel| !(x.node_id == owner_id(o) && x.property_ids.contains(pid)),
    );
    if owner_is_node(o) {
        let oms = m.object_mappings;
        assert forall|k: int| 0 <= k < oms.len() implies strip_property_mappings(oms, owner_id(o), pid)[k]
            == oms[k] by {
            if oms[k].node_type_id == owner_id(o) {
                lemma_filter_all(
                    oms[k].property_mappings,
                    |pm: PropertyMappingModel| !(pm.property_id == pid),
                );
            }
        }
        assert(strip_property_mappings(oms, owner_id(o), pid) =~= oms);
    }
}

/// Replacing an owner's property list and then putting the old list back
/// restores the ontology.
pub(crate) proof fn lemma_owner_props_roundtrip(
    m: OntologyModel,
    o: PropertyOwner,
    props: Seq<PropertyModel>,
    back: Seq<PropertyModel>,
)
    requires
        owner_props(m, o) == Some(back),
    ensures
        owner_props(with_owner_props(m, o, props), o) == Some(props),
        with_owner_props(with_owner_props(m, o, props), o, back) == m,
{
    let m1 = with_owner_props(m, o, props);
    match o {
        PropertyOwner::Node { type_id } => {
            let id = type_id@;
            lemma_first_match_props(m.node_types, key_is::<NodeTypeDef>(id));
            let i = first_match(m.node_types, key_is::<NodeTypeDef>(id)).unwrap();
            lemma_first_match_stable::<NodeTypeDef>(m.node_types, m1.node_types, id, i);
            assert(m1.node_types.update(i, NodeModel { properties: back, ..m1.node_types[i] })
                =~= m.node_types);
        },
        PropertyOwner::Edge { type_id } => {
            let id = type_id@;
            lemma_first_match_props(m.edge_types, key_is::<EdgeTypeDef>(id));
            let i = first_match(m.edge_types, key_is::<EdgeTypeDef>(id)).unwrap();
            lemma_first_match_stable::<EdgeTypeDef>(m.edge_types, m1.edge_types, id, i);
            assert(m1.edge_types.update(i, EdgeModel { properties: back, ..m1.edge_types[i] })
                =~= m.edge_types);
        },
    }
}

fn strip_mappings(
    oms: &Vec<ObjectMappingDef>,
    node_id: &String,
    property_id: &String,
) -> (r: (Vec<ObjectMappingDef>, Vec<OntologyCommand>))
    ensures
        models(r.0@) == strip_property_mappings(models(oms@), node_id@, property_id@),
        restore_cmds(r.1@, models(oms@).filter(mapping_loses(node_id@, property_id@))),
{
    broadcast use vstd::seq_lib::group_filter_ensures;
    let ghost target = strip_property_mappings(models(oms@), node_id@, property_id@);
    let ghost pid = property_id@;
    let mut out: Vec<ObjectMappingDef> = Vec::new();
    let mut restore: Vec<OntologyCommand> = Vec::new();
    let n = oms.len();
    let mut i: usize = 0;
    while i < n
        invariant
            n == oms.len(),
            i <= n,
            pid == property_id@,
            target == strip_property_mappings(models(oms@), node_id@, property_id@),
            target.len() == n,
            out@.len() == i,
            forall|j: int| 0 <= j < i ==> (#[trigger] out@[j])@ == target[j],
            restore_cmds(restore@, models(oms@).take(i as int).filter(mapping_loses(node_id@, property_id@))),
        decreases n - i,
    {
        let om = &oms[i];
        let ghost all = models(oms@);
        let ghost before = restore@;
        proof {
            assert(all.take(i + 1) =~= all.take(i as int).push(all[i as int]));
            all.take(i as int).lemma_filter_push(all[i as int], mapping_loses(node_id@, property_id@));
        }
        if str_equal(om.node_type_id.as_str(), node_id.as_str()) {
            let (kept, removed) = split_matching(
                &om.property_mappings,
                (|pm: &crate::ir::PropertyMapping| -> (b: bool)
                    ensures
                        b == (pm@.property_id == pid),
                    { str_equal(pm.property_id.as_str(), property_id.as_str()) }),
                Ghost(|pm: PropertyMappingModel| pm.property_id == pid),
            );
            proof {
                let pp = |pm: PropertyMappingModel| pm.property_id == pid;
                assert((|x: PropertyMappingModel| !pp(x)) =~= (|pm: PropertyMappingModel|
                    !(pm.property_id == pid)));
            }
            proof {
                assert((|pm: PropertyMappingModel| pm.property_id == pid) =~= (|pm: PropertyMappingModel| pm.property_id == property_id@));
                assert(mapping_loses(node_id@, property_id@)(all[i as int]) == (models(removed@).len() > 0));
            }
            let changed = removed.len() > 0;
            let updated = ObjectMappingDef {
                id: om.id.clone(),
                source_id: om.source_id.clone(),
                relation: om.relation.clone(),
                node_type_id: om.node_type_id.clone(),
                precedence: om.precedence,
                property_mappings: kept,
            };
            if changed {
                restore.push(
                    OntologyCommand::UpdateObjectMapping {
                        id: om.id.clone(),
                        mapping: Box::new(om.deep_copy()),
                    },
                );
                proof {
                    let rs = all.take(i + 1).filter(mapping_loses(node_id@, property_id@));
                    assert forall|k: int| 0 <= k < restore@.len() implies (#[trigger] restore@[k] matches OntologyCommand::UpdateObjectMapping { id, mapping } && id@ == rs[k].id && mapping@ == rs[k]) by {
                        if k < before.len() {
                            assert(restore@[k] == before[k]);
                        }
                    }
                }
            }
            out.push(updated);
        } else {
            out.push(om.deep_copy());
        }
        i = i + 1;
    }
    assert(models(out@) =~= target);
    assert(models(oms@).take(n as int) =~= models(oms@));
    (out, restore)
}

/// The owner's property list with the property at `k` moved to the end.
spec fn props_back(m: OntologyModel, o: PropertyOwner, k: int) -> Seq<PropertyModel> {
    owner_props(m, o).unwrap().remove(k).push(owner_props(m, o).unwrap()[k])
}

/// The index of the owning node type.
spec fn owner_node_index(m: OntologyModel, o: PropertyOwner) -> int {
    first_match(m.node_types, key_is::<NodeTypeDef>(owner_id(o))).unwrap()
}

/// The facts that make a property deletion's inverse succeed: the
/// property can be added back to what is left; then the dropped
/// constraints and indexes re-added after those kept, and the changed
/// object mappings put back, lead to [`property_reinstated`].
proof fn lemma_undo_property_deletion(
    m: OntologyModel,
    o: PropertyOwner,
    pid: Seq<char>,
    k: int,
    kept_c: Seq<ConstraintModel>,
    gone_c: Seq<ConstraintModel>,
    kept_x: Seq<IndexModel>,
    gone_x: Seq<IndexModel>,
)
    requires
        owner_props(m, o) is Some,
        first_match(owner_props(m, o).unwrap(), key_is::<PropertyDef>(pid)) == Some(k),
        keys_unique::<PropertyDef>(owner_props(m, o).unwrap()),
        owner_is_node(o) ==> keys_unique::<ConstraintDef>(m.node_types[owner_node_index(m, o)].constraints),
        keys_unique::<IndexDef>(m.indexes),
        keys_unique::<ObjectMappingDef>(m.object_mappings),
        kept_x == m.indexes.filter(|x: IndexModel| !(x.node_id == owner_id(o) && x.property_ids.contains(pid))),
        gone_x == m.indexes.filter(|x: IndexModel| x.node_id == owner_id(o) && x.property_ids.contains(pid)),
        owner_is_node(o) ==> kept_c == m.node_types[owner_node_index(m, o)].constraints.filter(
            |c: ConstraintModel| !c.property_ids.contains(pid),
        ),
        owner_is_node(o) ==> gone_c == m.node_types[owner_node_index(m, o)].constraints.filter(
            |c: ConstraintModel| c.property_ids.contains(pid),
        ),
        !owner_is_node(o) ==> gone_c.len() == 0,
    ensures
        ({
            let mdel = delete_property_step(m, o, pid).unwrap();
            let ma = with_owner_props(mdel, o, props_back(m, o, k));
            let i = owner_node_index(m, o);
            let mb = if owner_is_node(o) {
                OntologyModel {
                    node_types: ma.node_types.update(
                        i,
                        NodeModel { constraints: ma.node_types[i].constraints + gone_c, ..ma.node_types[i] },
                    ),
                    ..ma
                }
            } else {
                ma
            };
            let mc = OntologyModel { indexes: mb.indexes + gone_x, ..mb };
            &&& delete_property_step(m, o, pid) is Some
            &&& add_property_step(mdel, o, owner_props(m, o).unwrap()[k]) == Some(ma)
            &&& owner_is_node(o) ==> first_match(ma.node_types, key_is::<NodeTypeDef>(owner_id(o))) == Some(i)
            &&& owner_is_node(o) ==> ma.node_types[i].constraints == kept_c
            &&& keys_unique::<ConstraintDef>(gone_c)
            &&& forall|a: int, b: int|
                0 <= a < kept_c.len() && 0 <= b < gone_c.len() ==> ConstraintDef::key_of(#[trigger] kept_c[a])
                    != ConstraintDef::key_of(#[trigger] gone_c[b])
            &&& mb.indexes == kept_x
            &&& keys_unique::<IndexDef>(gone_x)
            &&& forall|a: int, b: int|
                0 <= a < kept_x.len() && 0 <= b < gone_x.len() ==> IndexDef::key_of(#[trigger] kept_x[a])
                    != IndexDef::key_of(#[trigger] gone_x[b])
            &&& mc.object_mappings == mdel.object_mappings
            &&& OntologyModel { object_mappings: m.object_mappings, ..mc } == property_reinstated(m, o, pid)
        }),
{
    broadcast use vstd::seq_lib::group_filter_ensures;
    let props = owner_props(m, o).unwrap();
    let oid = owner_id(o);
    lemma_first_match_props(props, key_is::<PropertyDef>(pid));
    let back = props.remove(k);
    lemma_remove_unique_key::<PropertyDef>(props, k);
    assert(PropertyDef::key_of(props[k]) == pid);
    let m1 = with_owner_props(m, o, back);
    lemma_owner_props_roundtrip(m, o, back, props);
    let mdel = delete_property_step(m, o, pid).unwrap();
    let nb = props_back(m, o, k);
    assert(moved_to_end::<PropertyDef>(props, pid) == nb);
    // Indexes.
    let px = |x: IndexModel| x.node_id == oid && x.property_ids.contains(pid);
    assert(kept_x == m.indexes.filter(|y: IndexModel| !px(y))) by {
        assert((|y: IndexModel| !px(y)) =~= (|x: IndexModel| !(x.node_id == oid && x.property_ids.contains(pid))));
    }
    assert(apart(m.indexes, same_key::<IndexDef>()));
    lemma_split_apart(m.indexes, px, same_key::<IndexDef>(), kept_x, gone_x);
    match o {
        PropertyOwner::Node { type_id } => {
            let i = owner_node_index(m, o);
            lemma_first_match_props(m.node_types, key_is::<NodeTypeDef>(oid));
            lemma_first_match_stable::<NodeTypeDef>(m.node_types, m1.node_types, oid, i);
            let cs = m.node_types[i].constraints;
            let pc = |c: ConstraintModel| c.property_ids.contains(pid);
            assert(kept_c == cs.filter(|y: ConstraintModel| !pc(y))) by {
                assert((|y: ConstraintModel| !pc(y)) =~= (|c: ConstraintModel| !c.property_ids.contains(pid)));
            }
            assert(apart(cs, same_key::<ConstraintDef>()));
            lemma_split_apart(cs, pc, same_key::<ConstraintDef>(), kept_c, gone_c);
            let n = m.node_types[i];
            let ndel = NodeModel { properties: back, constraints: kept_c, ..n };
            assert(mdel.node_types == m.node_types.update(i, ndel));
            lemma_first_match_stable::<NodeTypeDef>(m.node_types, mdel.node_types, oid, i);
            assert(owner_props(mdel, o) == Some(back));
            let ma = with_owner_props(mdel, o, nb);
            assert(ma.node_types == m.node_types.update(i, NodeModel { properties: nb, constraints: kept_c, ..n }));
            lemma_first_match_stable::<NodeTypeDef>(m.node_types, ma.node_types, oid, i);
            let m1r = with_owner_props(m, o, nb);
            lemma_first_match_stable::<NodeTypeDef>(m.node_types, m1r.node_types, oid, i);
            assert(m1r.node_types == m.node_types.update(i, NodeModel { properties: nb, ..n }));
            assert(add_property_step(mdel, o, props[k]) == Some(ma));
            assert(first_match(ma.node_types, key_is::<NodeTypeDef>(oid)) == Some(i));
            assert(ma.node_types[i].constraints == kept_c);
            let mb = OntologyModel {
                node_types: ma.node_types.update(
                    i,
                    NodeModel { constraints: ma.node_types[i].constraints + gone_c, ..ma.node_types[i] },
                ),
                ..ma
            };
            assert(mb.indexes == kept_x);
            let mc = OntologyModel { indexes: mb.indexes + gone_x, ..mb };
            assert(mc.object_mappings == mdel.object_mappings);
            let fin = OntologyModel { object_mappings: m.object_mappings, ..mc };
            let pr = property_reinstated(m, o, pid);
            assert(fin.node_types =~= pr.node_types);
            assert(fin.edge_types == pr.edge_types);
            assert(fin.indexes == pr.indexes);
            assert(fin.object_mappings == pr.object_mappings);
            assert(fin == pr);
        },
        PropertyOwner::Edge { type_id } => {
            let i = first_match(m.edge_types, key_is::<EdgeTypeDef>(oid)).unwrap();
            lemma_first_match_props(m.edge_types, key_is::<EdgeTypeDef>(oid));
            assert(mdel.edge_types == m.edge_types.update(i, EdgeModel { properties: back, ..m.edge_types[i] }));
            lemma_first_match_stable::<EdgeTypeDef>(m.edge_types, mdel.edge_types, oid, i);
            assert(owner_props(mdel, o) == Some(back));
            let ma = with_owner_props(mdel, o, nb);
            assert(ma.edge_types == m.edge_types.update(i, EdgeModel { properties: nb, ..m.edge_types[i] }));
            assert(gone_c =~= Seq::<ConstraintModel>::empty());
        },
    }
}

/// Stripping a property's mappings keeps each object mapping's id and
/// changes only those that lose an entry, which come from the collection.
proof fn lemma_strip_restorable(oms: Seq<ObjectMappingModel>, nid: Seq<char>, pid: Seq<char>)
    ensures
        strip_property_mappings(oms, nid, pid).len() == oms.len(),
        forall|j: int|
            0 <= j < oms.len() ==> (#[trigger] strip_property_mappings(oms, nid, pid)[j]).id == oms[j].id,
        forall|j: int|
            0 <= j < oms.len() ==> strip_property_mappings(oms, nid, pid)[j] == oms[j] || oms.filter(
                mapping_loses(nid, pid),
            ).contains(#[trigger] oms[j]),
        forall|k: int|
            0 <= k < oms.filter(mapping_loses(nid, pid)).len() ==> oms.contains(
                #[trigger] oms.filter(mapping_loses(nid, pid))[k],
            ),
{
    broadcast use vstd::seq_lib::group_filter_ensures;
    let st = strip_property_mappings(oms, nid, pid);
    assert forall|j: int| 0 <= j < oms.len() implies st[j] == oms[j] || oms.filter(mapping_loses(nid, pid)).contains(
        #[trigger] oms[j],
    ) by {
        let o = oms[j];
        if o.node_type_id == nid {
            let pms = o.property_mappings;
            let hit = |pm: PropertyMappingModel| pm.property_id == pid;
            if pms.filter(hit).len() == 0 {
                assert forall|q: int| 0 <= q < pms.len() implies (|pm: PropertyMappingModel| !(pm.property_id == pid))(
                    #[trigger] pms[q],
                ) by {
                    if pms[q].property_id == pid {
                        pms.lemma_filter_contains(hit, q);
                    }
                }
                lemma_filter_all(pms, |pm: PropertyMappingModel| !(pm.property_id == pid));
                assert(st[j] == o);
            } else {
                assert(mapping_loses(nid, pid)(o));
                oms.lemma_filter_contains(mapping_loses(nid, pid), j);
            }
        }
    }
    let f = oms.filter(mapping_loses(nid, pid));
    assert forall|k: int| 0 <= k < f.len() implies oms.contains(#[trigger] f[k]) by {
        assert(f.contains(f[k]));
        oms.lemma_filter_contains_rev(mapping_loses(nid, pid), f[k]);
    }
}

/// Running a property deletion's inverse, command group by command group,
/// reinstates the ontology.
proof fn lemma_undo_property_steps(
    m: OntologyModel,
    o: PropertyOwner,
    pid: Seq<char>,
    k: int,
    cmds: Seq<OntologyCommand>,
    kept_c: Seq<ConstraintModel>,
    gone_c: Seq<ConstraintModel>,
    kept_x: Seq<IndexModel>,
    gone_x: Seq<IndexModel>,
    rs: Seq<ObjectMappingModel>,
)
    requires
        owner_props(m, o) is Some,
        first_match(owner_props(m, o).unwrap(), key_is::<PropertyDef>(pid)) == Some(k),
        keys_unique::<PropertyDef>(owner_props(m, o).unwrap()),
        owner_is_node(o) ==> keys_unique::<ConstraintDef>(m.node_types[owner_node_index(m, o)].constraints),
        keys_unique::<IndexDef>(m.indexes),
        keys_unique::<ObjectMappingDef>(m.object_mappings),
        kept_x == m.indexes.filter(|x: IndexModel| !(x.node_id == owner_id(o) && x.property_ids.contains(pid))),
        gone_x == m.indexes.filter(|x: IndexModel| x.node_id == owner_id(o) && x.property_ids.contains(pid)),
        owner_is_node(o) ==> kept_c == m.node_types[owner_node_index(m, o)].constraints.filter(
            |c: ConstraintModel| !c.property_ids.contains(pid),
        ),
        owner_is_node(o) ==> gone_c == m.node_types[owner_node_index(m, o)].constraints.filter(
            |c: ConstraintModel| c.property_ids.contains(pid),
        ),
        !owner_is_node(o) ==> gone_c.len() == 0,
        owner_is_node(o) ==> rs == m.object_mappings.filter(mapping_loses(owner_id(o), pid)),
        !owner_is_node(o) ==> rs.len() == 0,
        cmds.len() == 1 + gone_c.len() + gone_x.len() + rs.len(),
        cmds[0] matches OntologyCommand::AddProperty { owner, property } && owner == o && property@ == owner_props(
            m,
            o,
        ).unwrap()[k],
        constraint_creations(cmds.subrange(1, 1 + gone_c.len() as int), owner_id(o), gone_c),
        index_creations(cmds.subrange(1 + gone_c.len() as int, 1 + gone_c.len() + gone_x.len() as int), gone_x),
        restore_cmds(cmds.subrange(1 + gone_c.len() + gone_x.len() as int, cmds.len() as int), rs),
    ensures
        run_all(cmds, delete_property_step(m, o, pid).unwrap()) == Some(property_reinstated(m, o, pid)),
{
    lemma_undo_property_deletion(m, o, pid, k, kept_c, gone_c, kept_x, gone_x);
    let mdel = delete_property_step(m, o, pid).unwrap();
    let ma = with_owner_props(mdel, o, props_back(m, o, k));
    let i = owner_node_index(m, o);
    let mb = if owner_is_node(o) {
        OntologyModel {
            node_types: ma.node_types.update(
                i,
                NodeModel { constraints: ma.node_types[i].constraints + gone_c, ..ma.node_types[i] },
            ),
            ..ma
        }
    } else {
        ma
    };
    let mc = OntologyModel { indexes: mb.indexes + gone_x, ..mb };
    let a: int = 1 + gone_c.len() as int;
    let b: int = a + gone_x.len() as int;
    let c0 = cmds.subrange(0, 1);
    let cc = cmds.subrange(1, a);
    let xc = cmds.subrange(a, b);
    let rc = cmds.subrange(b, cmds.len() as int);
    assert(cmds =~= c0 + cc + xc + rc);
    assert(c0 =~= seq![cmds[0]]);
    lemma_batch_of_one(cmds[0], mdel);
    assert(step(cmds[0], mdel) == Some(ma));
    lemma_run_all_concat(c0, cc, mdel);
    if owner_is_node(o) {
        lemma_run_constraint_creations(cc, owner_id(o), gone_c, ma, i);
    } else {
        assert(cc.len() == 0);
        assert(run_all(cc, ma) == Some(ma));
    }
    lemma_run_all_concat(c0 + cc, xc, mdel);
    lemma_run_index_creations(xc, gone_x, mb);
    lemma_run_all_concat(c0 + cc + xc, rc, mdel);
    if owner_is_node(o) {
        lemma_strip_restorable(m.object_mappings, owner_id(o), pid);
        lemma_run_restores(rc, rs, m.object_mappings, mc);
    } else {
        assert(rc.len() == 0);
        assert(mc.object_mappings == m.object_mappings);
        assert(OntologyModel { object_mappings: m.object_mappings, ..mc } == mc);
    }
}

fn exec_delete_property(mut ont: OntologyIR, owner: &PropertyOwner, property_id: &String) -> (r:
    Result<CommandResult, String>)
    ensures
        owner_props(ont@, *owner) is None ==> (r matches Err(e) && e@ == owner_missing_text(*owner)),
        outcome_matches(r, delete_property_step(ont@, *owner, property_id@)),
        r matches Ok(res) ==> (undo_reinstates(
            OntologyCommand::DeleteProperty { owner: *owner, property_id: *property_id },
            ont@,
        ) ==> step(res.inverse, res.new_ontology@) == Some(property_reinstated(ont@, *owner, property_id@))),
{
    let idx = match locate_owner(&ont, owner) {
        Some(i) => i,
        None => {
            return Err(owner_missing(owner));
        },
    };
    let is_node = match owner {
        PropertyOwner::Node { .. } => true,
        PropertyOwner::Edge { .. } => false,
    };
    let ghost m = ont@;
    let ghost pid = property_id@;
    let ghost oid = owner_id(*owner);
    let mut props = owner_props_copy(&ont, is_node, idx);
    proof {
        assert(owner_props(m, *owner) == Some(models(props@)));
    }
    let k = match position_of(&props, property_id.as_str()) {
        Some(k) => k,
        None => {
            return Err(message("property '", property_id.as_str(), "' not found on its owner"));
        },
    };
    proof {
        lemma_models_remove(props@, k as int);
    }
    let ghost props0 = models(props@);
    let removed_prop = props.remove(k);
    put_owner_props(&mut ont, owner, idx, props);
    let ghost m1 = ont@;
    let mut removed_constraints: Vec<ConstraintDef> = Vec::new();
    let ghost mut kept_c: Seq<ConstraintModel> = Seq::empty();
    if is_node {
        proof {
            lemma_first_match_props(m.node_types, key_is::<NodeTypeDef>(oid));
            assert(key_is::<NodeTypeDef>(oid)(m.node_types[idx as int]));
            assert(m1.node_types[idx as int].id == m.node_types[idx as int].id);
            lemma_first_match_stable::<NodeTypeDef>(m.node_types, m1.node_types, oid, idx as int);
        }
        let ghost s = ont.node_types@;
        let mut node = ont.node_types.remove(idx);
        let (kept, removed) = split_matching(
            &node.constraints,
            (|c: &ConstraintDef| -> (b: bool)
                ensures
                    b == c@.property_ids.contains(pid),
                { c.references_property(property_id.as_str()) }),
            Ghost(|c: ConstraintModel| c.property_ids.contains(pid)),
        );
        proof {
            let pc = |c: ConstraintModel| c.property_ids.contains(pid);
            assert((|x: ConstraintModel| !pc(x)) =~= (|c: ConstraintModel|
                !c.property_ids.contains(pid)));
        }
        proof {
            kept_c = models(kept@);
        }
        node.constraints = kept;
        ont.node_types.insert(idx, node);
        proof {
            assert(ont.node_types@ =~= s.update(idx as int, node));
            lemma_models_update(s, idx as int, node);
        }
        removed_constraints = removed;
    }
    let ghost m2 = ont@;
    let (kept_idx, removed_indexes) = split_matching(
        &ont.indexes,
        (|x: &IndexDef| -> (b: bool)
            ensures
                b == (x@.node_id == oid && x@.property_ids.contains(pid)),
            { str_equal(x.index_node_id().as_str(), owner.as_str().as_str()) && x.references_property(property_id.as_str()) }),
        Ghost(|x: IndexModel| x.node_id == oid && x.property_ids.contains(pid)),
    );
    proof {
        let pi = |x: IndexModel| x.node_id == oid && x.property_ids.contains(pid);
        assert((|x: IndexModel| !pi(x)) =~= (|x: IndexModel|
            !(x.node_id == oid && x.property_ids.contains(pid))));
    }
    ont.indexes = kept_idx;
    let mut restore: Vec<OntologyCommand> = Vec::new();
    if is_node {
        let (oms, rs) = strip_mappings(&ont.object_mappings, owner.as_str(), property_id);
        ont.object_mappings = oms;
        restore = rs;
    }
    let ghost pm = removed_prop@;
    let add_property = OntologyCommand::AddProperty {
        owner: owner.copy(),
        property: Box::new(removed_prop),
    };
    let ghost gone_c = models(removed_constraints@);
    let ghost gone_x = models(removed_indexes@);
    let ghost rsm = if is_node {
        m.object_mappings.filter(mapping_loses(oid, pid))
    } else {
        Seq::<ObjectMappingModel>::empty()
    };
    let ghost nc = gone_c.len() as int;
    let ghost nx = gone_x.len() as int;
    proof {
        assert(restore_cmds(restore@, rsm));
    }
    let inverse = if restore.len() == 0 && removed_constraints.len() == 0 && removed_indexes.len()
        == 0 {
        proof {
            let cmds = seq![add_property];
            assert(cmds.subrange(1, 1) =~= Seq::<OntologyCommand>::empty());
            if undo_reinstates(OntologyCommand::DeleteProperty { owner: *owner, property_id: *property_id }, m) {
                lemma_undo_property_steps(m, *owner, pid, k as int, cmds, kept_c, gone_c, m.indexes.filter(
                    |x: IndexModel| !(x.node_id == oid && x.property_ids.contains(pid)),
                ), gone_x, rsm);
                lemma_batch_of_one(add_property, ont@);
            }
        }
        add_property
    } else {
        let mut commands: Vec<OntologyCommand> = Vec::new();
        commands.push(add_property);
        let mut i: usize = 0;
        while i < removed_constraints.len()
            invariant
                i <= gone_c.len(),
                gone_c == models(removed_constraints@),
                oid == owner_id(*owner),
                commands@.len() == 1 + i,
                commands@[0] == add_property,
                constraint_creations(commands@.subrange(1, 1 + i), oid, gone_c.take(i as int)),
            decreases removed_constraints.len() - i,
        {
            let ghost before = commands@;
            commands.push(
                OntologyCommand::AddConstraint {
                    node_id: owner.as_str().clone(),
                    constraint: removed_constraints[i].deep_copy(),
                },
            );
            proof {
                let cs = commands@.subrange(1, i + 2);
                let gs = gone_c.take(i + 1);
                assert forall|q: int| 0 <= q < cs.len() implies (#[trigger] cs[q] matches OntologyCommand::AddConstraint { node_id, constraint } && node_id@ == oid && constraint@ == gs[q]) by {
                    if q < i {
                        assert(cs[q] == before.subrange(1, 1 + i)[q]);
                        assert(gs[q] == gone_c.take(i as int)[q]);
                    }
                }
            }
            i = i + 1;
        }
        assert(gone_c.take(nc) =~= gone_c);
        let mut i: usize = 0;
        while i < removed_indexes.len()
            invariant
                i <= gone_x.len(),
                nc == gone_c.len(),
                gone_x == models(removed_indexes@),
                commands@.len() == 1 + nc + i,
                commands@[0] == add_property,
                constraint_creations(commands@.subrange(1, 1 + nc), oid, gone_c),
                index_creations(commands@.subrange(1 + nc, 1 + nc + i), gone_x.take(i as int)),
            decreases removed_indexes.len() - i,
        {
            let ghost before = commands@;
            commands.push(OntologyCommand::AddIndex { index: removed_indexes[i].deep_copy() });
            proof {
                assert(commands@.subrange(1, 1 + nc) =~= before.subrange(1, 1 + nc));
                let cs = commands@.subrange(1 + nc, 1 + nc + i + 1);
                let xs = gone_x.take(i + 1);
                assert forall|q: int| 0 <= q < cs.len() implies (#[trigger] cs[q] matches OntologyCommand::AddIndex { index } && index@ == xs[q]) by {
                    if q < i {
                        assert(cs[q] == before.subrange(1 + nc, 1 + nc + i)[q]);
                        assert(xs[q] == gone_x.take(i as int)[q]);
                    }
                }
            }
            i = i + 1;
        }
        assert(gone_x.take(nx) =~= gone_x);
        let ghost before = commands@;
        let ghost restored = restore@;
        commands.append(&mut restore);
        proof {
            assert(commands@ =~= before + restored);
            assert(commands@.subrange(1, 1 + nc) =~= before.subrange(1, 1 + nc));
            assert(commands@.subrange(1 + nc, 1 + nc + nx) =~= before.subrange(1 + nc, 1 + nc + nx));
            assert(commands@.subrange(1 + nc + nx, commands@.len() as int) =~= restored);
            if undo_reinstates(OntologyCommand::DeleteProperty { owner: *owner, property_id: *property_id }, m) {
                lemma_undo_property_steps(m, *owner, pid, k as int, commands@, kept_c, gone_c, m.indexes.filter(
                    |x: IndexModel| !(x.node_id == oid && x.property_ids.contains(pid)),
                ), gone_x, rsm);
            }
        }
        let mut description = message("restore deleted property '", property_id.as_str(), "' on '");
        description.append(owner.as_str().as_str());
        description.append("'");
        OntologyCommand::Batch { description, commands }
    };
    Ok(CommandResult { new_ontology: ont, inverse })
}

#[verifier::rlimit(40)]
fn exec_update_property(
    mut ont: OntologyIR,
    owner: &PropertyOwner,
    property_id: &String,
    patch: &PropertyPatch,
) -> (r: Result<CommandResult, String>)
    ensures
        owner_props(ont@, *owner) is None ==> (r matches Err(e) && e@ == owner_missing_text(*owner)),
        outcome_matches(r, update_property_step(ont@, *owner, property_id@, *patch)),
        r matches Ok(res) ==> step(res.inverse, res.new_ontology@) == Some(ont@),
{
    let idx = match locate_owner(&ont, owner) {
        Some(i) => i,
        None => {
            return Err(owner_missing(owner));
        },
    };
    let is_node = match owner {
        PropertyOwner::Node { .. } => true,
        PropertyOwner::Edge { .. } => false,
    };
    let ghost m = ont@;
    let mut props = owner_props_copy(&ont, is_node, idx);
    proof {
        assert(owner_props(m, *owner) == Some(models(props@)));
    }
    let k = match position_of(&props, property_id.as_str()) {
        Some(k) => k,
        None => {
            return Err(message("property '", property_id.as_str(), "' not found on its owner"));
        },
    };
    let ghost ps = props@;
    let mut prop = props.remove(k);
    let reverse = PropertyPatch {
        name: match &patch.name {
            Some(_) => Some(prop.name.clone()),
            None => None,
        },
        property_type: match patch.property_type {
            Some(_) => Some(prop.property_type),
            None => None,
        },
        nullable: match patch.nullable {
            Some(_) => Some(prop.nullable),
            None => None,
        },
        default_value: match &patch.default_value {
            Some(_) => Some(copy_opt_text(&prop.default_value)),
            None => None,
        },
        description: match &patch.description {
            Some(_) => Some(prop.description.clone()),
            None => None,
        },
    };
    if let Some(name) = &patch.name {
        prop.name = name.clone();
    }
    if let Some(t) = patch.property_type {
        prop.property_type = t;
    }
    if let Some(b) = patch.nullable {
        prop.nullable = b;
    }
    if let Some(d) = &patch.default_value {
        prop.default_value = copy_opt_text(d);
    }
    if let Some(d) = &patch.description {
        prop.description = d.clone();
    }
    props.insert(k, prop);
    proof {
        assert(props@ =~= ps.update(k as int, prop));
        lemma_models_update(ps, k as int, prop);
        assert(prop@ == apply_patch(ps[k as int]@, *patch));
        let p0 = models(ps);
        let p1 = models(props@);
        lemma_first_match_stable::<PropertyDef>(p0, p1, property_id@, k as int);
        assert(apply_patch(p1[k as int], reverse) == p0[k as int]);
        assert(p1.update(k as int, apply_patch(p1[k as int], reverse)) =~= p0);
        lemma_owner_props_roundtrip(m, *owner, p1, p0);
    }
    put_owner_props(&mut ont, owner, idx, props);
    Ok(
        CommandResult {
            new_ontology: ont,
            inverse: OntologyCommand::UpdateProperty {
                owner: owner.copy(),
                property_id: property_id.clone(),
                patch: reverse,
            },
        },
    )
}

fn exec_add_constraint(mut ont: OntologyIR, node_id: &String, constraint: ConstraintDef) -> (r:
    Result<CommandResult, String>)
    ensures
        first_match(ont@.node_types, key_is::<NodeTypeDef>(node_id@)) is None ==> (r matches Err(e)
            && e@ == missing_text("node '"@, node_id@)),
        outcome_matches(r, add_constraint_step(ont@, node_id@, constraint@)),
        r matches Ok(res) ==> step(res.inverse, res.new_ontology@) == Some(ont@),
{
    let idx = match position_of(&ont.node_types, node_id.as_str()) {
        Some(i) => i,
        None => {
            return Err(message("node '", node_id.as_str(), "' not found"));
        },
    };
    if position_of(&ont.node_types[idx].constraints, constraint.id.as_str()).is_some() {
        return Err(message("constraint '", constraint.id.as_str(), "' already exists on the node"));
    }
    let ghost s = ont.node_types@;
    let mut node = ont.node_types.remove(idx);
    let cid = constraint.id.clone();
    let ghost cs = models(node.constraints@);
    proof {
        lemma_models_push(node.constraints@, constraint);
        lemma_first_match_push_absent::<ConstraintDef>(cs, constraint@);
        assert(cs.push(constraint@).remove(cs.len() as int) =~= cs);
    }
    node.constraints.push(constraint);
    ont.node_types.insert(idx, node);
    proof {
        assert(ont.node_types@ =~= s.update(idx as int, node));
        lemma_models_update(s, idx as int, node);
        let m0 = models(s);
        let m1 = models(ont.node_types@);
        lemma_first_match_stable::<NodeTypeDef>(m0, m1, node_id@, idx as int);
        assert(m1.update(idx as int, NodeModel { constraints: cs, ..m1[idx as int] }) =~= m0);
    }
    Ok(
        CommandResult {
            new_ontology: ont,
            inverse: OntologyCommand::RemoveConstraint { node_id: node_id.clone(), constraint_id: cid },
        },
    )
}

fn exec_remove_constraint(mut ont: OntologyIR, node_id: &String, constraint_id: &String) -> (r:
    Result<CommandResult, String>)
    ensures
        first_match(ont@.node_types, key_is::<NodeTypeDef>(node_id@)) is None ==> (r matches Err(e)
            && e@ == missing_text("node '"@, node_id@)),
        outcome_matches(r, remove_constraint_step(ont@, node_id@, constraint_id@)),
        r matches Ok(res) ==> (undo_reinstates(
            OntologyCommand::RemoveConstraint { node_id: *node_id, constraint_id: *constraint_id },
            ont@,
        ) ==> step(res.inverse, res.new_ontology@) == Some(
            reinstated(OntologyCommand::RemoveConstraint { node_id: *node_id, constraint_id: *constraint_id }, ont@),
        )),
{
    let ghost m = ont@;
    let idx = match position_of(&ont.node_types, node_id.as_str()) {
        Some(i) => i,
        None => {
            return Err(message("node '", node_id.as_str(), "' not found"));
        },
    };
    let c_idx = match position_of(&ont.node_types[idx].constraints, constraint_id.as_str()) {
        Some(c) => c,
        None => {
            return Err(message("constraint '", constraint_id.as_str(), "' not found on the node"));
        },
    };
    let ghost s = ont.node_types@;
    let mut node = ont.node_types.remove(idx);
    proof {
        lemma_models_remove(node.constraints@, c_idx as int);
    }
    let removed = node.constraints.remove(c_idx);
    ont.node_types.insert(idx, node);
    proof {
        assert(ont.node_types@ =~= s.update(idx as int, node));
        lemma_models_update(s, idx as int, node);
        let cs = m.node_types[idx as int].constraints;
        if keys_unique::<ConstraintDef>(cs) {
            lemma_keyed_remove_push::<ConstraintDef>(cs, constraint_id@, c_idx as int);
            lemma_first_match_props(m.node_types, key_is::<NodeTypeDef>(node_id@));
            lemma_first_match_stable::<NodeTypeDef>(m.node_types, ont@.node_types, node_id@, idx as int);
            let back = ont@.node_types.update(
                idx as int,
                NodeModel { constraints: cs.remove(c_idx as int).push(cs[c_idx as int]), ..ont@.node_types[idx as int] },
            );
            assert(back =~= m.node_types.update(
                idx as int,
                NodeModel { constraints: moved_to_end::<ConstraintDef>(cs, constraint_id@), ..m.node_types[idx as int] },
            ));
        }
    }
    Ok(
        CommandResult {
            new_ontology: ont,
            inverse: OntologyCommand::AddConstraint { node_id: node_id.clone(), constraint: removed },
        },
    )
}

/// Append to a keyed vector unless the key is taken.
pub(crate) fn push_keyed<T: Keyed>(v: &mut Vec<T>, x: T) -> (r: bool)
    ensures
        r ==> keyed_push::<T>(models(old(v)@), x@) == Some(models(final(v)@)),
        !r ==> keyed_push::<T>(models(old(v)@), x@) is None && final(v)@ == old(v)@,
        r ==> keyed_remove::<T>(models(final(v)@), T::key_of(x@)) == Some(models(old(v)@)),
{
    if position_of(v, x.key().as_str()).is_some() {
        return false;
    }
    proof {
        lemma_models_push(v@, x);
        let s = models(v@);
        lemma_first_match_push_absent::<T>(s, x@);
        assert(s.push(x@).remove(s.len() as int) =~= s);
    }
    v.push(x);
    true
}

/// Remove the first element with key `id`.
pub(crate) fn remove_keyed<T: Keyed>(v: &mut Vec<T>, id: &str) -> (r: Option<T>)
    ensures
        r is Some ==> keyed_remove::<T>(models(old(v)@), id@) == Some(models(final(v)@)),
        r matches Some(x) ==> T::key_of(x@) == id@,
        r matches Some(x) ==> (first_match(models(old(v)@), key_is::<T>(id@)) matches Some(k) && x@
            == models(old(v)@)[k]),
        r is None ==> keyed_remove::<T>(models(old(v)@), id@) is None && final(v)@ == old(v)@,
{
    match position_of(v, id) {
        Some(i) => {
            proof {
                lemma_models_remove(v@, i as int);
            }
            Some(v.remove(i))
        },
        None => None,
    }
}

/// Replace the first element with key `id` by `x` (whose key must be `id`).
pub(crate) fn replace_keyed<T: Keyed>(v: &mut Vec<T>, id: &str, x: T) -> (r: Option<T>)
    ensures
        r is Some ==> keyed_replace::<T>(models(old(v)@), id@, x@) == Some(models(final(v)@)),
        r matches Some(y) ==> T::key_of(y@) == id@,
        r is None ==> keyed_replace::<T>(models(old(v)@), id@, x@) is None && final(v)@ == old(v)@,
        r matches Some(y) ==> keyed_replace::<T>(models(final(v)@), id@, y@) == Some(
            models(old(v)@),
        ),
{
    if !str_equal(x.key().as_str(), id) {
        return None;
    }
    match position_of(v, id) {
        Some(i) => {
            let ghost s = models(v@);
            proof {
                lemma_models_update(v@, i as int, x);
                lemma_first_match_stable::<T>(s, s.update(i as int, x@), id@, i as int);
                assert(s.update(i as int, x@).update(i as int, s[i as int]) =~= s);
            }
            Some(replace_at(v, i, x))
        },
        None => None,
    }
}


impl OntologyCommand {
    /// Element ids this command touches (a batch: those of its commands,
    /// in order).
    pub fn affected_element_ids(&self) -> (r: Vec<String>)
        ensures
            texts(r@) == affected_ids(*self),
        decreases self,
    {
        let mut out: Vec<String> = Vec::new();
        match self {
            OntologyCommand::AddNode { id, .. } => out.push(id.clone()),
            OntologyCommand::CreateNodeType { node } => out.push(node.id.clone()),
            OntologyCommand::DeleteNode { node_id }
            | OntologyCommand::RenameNode { node_id, .. }
            | OntologyCommand::UpdateNodeDescription { node_id, .. }
            | OntologyCommand::SetNodeGlossaryAnchors { node_id, .. } => out.push(node_id.clone()),
            OntologyCommand::AddEdge { id, .. } => out.push(id.clone()),
            OntologyCommand::CreateEdgeType { edge } => out.push(edge.id.clone()),
            OntologyCommand::DeleteEdge { edge_id }
            | OntologyCommand::RenameEdge { edge_id, .. }
            | OntologyCommand::UpdateEdgeCardinality { edge_id, .. }
            | OntologyCommand::UpdateEdgeDescription { edge_id, .. }
            | OntologyCommand::SetEdgeGlossaryAnchors { edge_id, .. } => out.push(edge_id.clone()),
            OntologyCommand::AddProperty { owner, .. }
            | OntologyCommand::DeleteProperty { owner, .. }
            | OntologyCommand::UpdateProperty { owner, .. } => out.push(owner.as_str().clone()),
            OntologyCommand::AddConstraint { node_id, .. }
            | OntologyCommand::RemoveConstraint { node_id, .. } => out.push(node_id.clone()),
            OntologyCommand::AddIndex { .. } | OntologyCommand::RemoveIndex { .. } => {},
            OntologyCommand::CreateObjectMapping { mapping } => out.push(mapping.id.clone()),
            OntologyCommand::UpdateObjectMapping { id, .. }
            | OntologyCommand::DeleteObjectMapping { id } => out.push(id.clone()),
            OntologyCommand::CreateLinkMapping { mapping } => out.push(mapping.id.clone()),
            OntologyCommand::UpdateLinkMapping { id, .. }
            | OntologyCommand::DeleteLinkMapping { id } => out.push(id.clone()),
            OntologyCommand::Batch { description, commands } => {
                let ghost cs = commands@;
                let n = commands.len();
                let mut i: usize = 0;
                while i < n
                    invariant
                        n == commands.len(),
                        cs == commands@,
                        i <= n,
                        *self == (OntologyCommand::Batch {
                            description: *description,
                            commands: *commands,
                        }),
                        texts(out@) == affected_ids_all(cs.subrange(0, i as int)),
                    decreases n - i,
                {
                    proof {
                        assert(self->Batch_commands == *commands);
                        assert(decreases_to!(*self => self->Batch_commands));
                        assert(decreases_to!(*commands => commands@));
                        assert(decreases_to!(commands@ => commands@[i as int]));
                        let next = cs.subrange(0, i + 1);
                        assert(next.subrange(0, next.len() - 1) =~= cs.subrange(0, i as int));
                        assert(next[next.len() - 1] == cs[i as int]);
                    }
                    let mut ids = commands[i].affected_element_ids();
                    let ghost before = out@;
                    let ghost added = ids@;
                    out.append(&mut ids);
                    proof {
                        assert(texts(out@) =~= texts(before) + texts(added));
                    }
                    i = i + 1;
                }
                proof {
                    assert(cs.subrange(0, n as int) =~= cs);
                }
            },
        }
        proof {
            if !(*self is Batch) {
                assert(texts(out@) =~= affected_ids(*self));
            }
        }
        out
    }

    /// Execute a command against an ontology: apply it to a copy and keep
    /// the result only when it is well formed.
    pub fn execute(&self, ontology: &OntologyIR) -> (r: Result<CommandResult, String>)
        ensures
            outcome_matches(r, validated(step(*self, ontology@))),
            r matches Ok(res) ==> well_formed(res.new_ontology@),
            r matches Ok(res) ==> (undo_restores(*self, ontology@) ==> step(
                res.inverse,
                res.new_ontology@,
            ) == Some(ontology@)),
            r matches Ok(res) ==> (undo_restores(*self, ontology@) && well_formed(ontology@)
                ==> validated(step(res.inverse, res.new_ontology@)) == Some(ontology@)),
            r matches Ok(res) ==> (undo_reinstates(*self, ontology@) ==> step(
                res.inverse,
                res.new_ontology@,
            ) == Some(reinstated(*self, ontology@))),
            refusal(*self, ontology@) matches Some(t) ==> r matches Err(e) && e@ == t,
            r matches Err(e) ==> (step(*self, ontology@) is None ==> (*self matches OntologyCommand::Batch {
                commands,
                ..
            } ==> exists|i: int, sub: Seq<char>|
                #[trigger] first_refusal(commands@, ontology@, i) && e@ == #[trigger] batch_failure_text(
                    i as nat,
                    sub,
                ))),
    {
        let result = match self.execute_inner(ontology.deep_copy()) {
            Ok(res) => res,
            Err(e) => {
                return Err(e);
            },
        };
        let errors = result.new_ontology.validate();
        if errors.len() == 0 {
            Ok(result)
        } else {
            let mut text = String::from_str("command produced invalid ontology: ");
            let mut i: usize = 0;
            while i < errors.len()
                decreases errors.len() - i,
            {
                if i > 0 {
                    text.append("; ");
                }
                text.append(errors[i].as_str());
                i = i + 1;
            }
            Err(text)
        }
    }

    /// Apply the command to an owned ontology without validating the
    /// result. Sub-commands of a batch run in order; the inverse of a
    /// batch runs the sub-inverses in reverse order.
    #[verifier::rlimit(40)]
    pub fn execute_inner(&self, ontology: OntologyIR) -> (r: Result<CommandResult, String>)
        ensures
            outcome_matches(r, step(*self, ontology@)),
            r matches Ok(res) ==> (undo_restores(*self, ontology@) ==> step(
                res.inverse,
                res.new_ontology@,
            ) == Some(ontology@)),
            r matches Ok(res) ==> (undo_reinstates(*self, ontology@) ==> step(
                res.inverse,
                res.new_ontology@,
            ) == Some(reinstated(*self, ontology@))),
            refusal(*self, ontology@) matches Some(t) ==> r matches Err(e) && e@ == t,
            r matches Err(e) ==> (*self matches OntologyCommand::Batch { commands, .. } ==> exists|
                i: int,
                sub: Seq<char>,
            | #[trigger] first_refusal(commands@, ontology@, i) && e@ == #[trigger] batch_failure_text(
                i as nat,
                sub,
            )),
        decreases self,
    {
        let mut ont = ontology;
        match self {
            OntologyCommand::AddNode { id, label, description } => {
                let node = NodeTypeDef {
                    id: id.clone(),
                    label: label.clone(),
                    description: description.clone(),
                    properties: Vec::new(),
                    constraints: Vec::new(),
                    implements: Vec::new(),
                    rules: Vec::new(),
                    actions: Vec::new(),
                    metrics: Vec::new(),
                    glossary_anchors: Vec::new(),
                    concept_id: None,
                    deprecated_at: None,
                    replaced_by_id: None,
                };
                proof {
                    lemma_models_empty(node.properties@, node.implements@);
                    lemma_models_empty(node.constraints@, node.rules@);
                    lemma_models_empty(node.properties@, node.actions@);
                    lemma_models_empty(node.properties@, node.metrics@);
                    lemma_models_empty(node.properties@, node.glossary_anchors@);
                    assert(node@ =~= bare_node(id@, label@, description@));
                }
                exec_add_node(ont, node)
            },
            OntologyCommand::CreateNodeType { node } => exec_add_node(ont, node.deep_copy()),
            OntologyCommand::DeleteNode { node_id } => exec_delete_node(ont, node_id),
            OntologyCommand::RenameNode { node_id, new_label } => exec_rename_node(
                ont,
                node_id,
                new_label,
            ),
            OntologyCommand::UpdateNodeDescription { node_id, description } =>
                exec_update_node_description(ont, node_id, description),
            OntologyCommand::SetNodeGlossaryAnchors { node_id, anchors } => exec_set_node_anchors(
                ont,
                node_id,
                anchors,
            ),
            OntologyCommand::AddEdge { id, label, source_node_id, target_node_id, cardinality } => {
                let edge = EdgeTypeDef {
                    id: id.clone(),
                    label: label.clone(),
                    description: String::new(),
                    source_node_id: source_node_id.clone(),
                    target_node_id: target_node_id.clone(),
                    properties: Vec::new(),
                    cardinality: *cardinality,
                    glossary_anchors: Vec::new(),
                    concept_id: None,
                    deprecated_at: None,
                    replaced_by_id: None,
                };
                proof {
                    lemma_models_empty(edge.properties@, edge.glossary_anchors@);
                    assert(edge@ =~= bare_edge(
                        id@,
                        label@,
                        source_node_id@,
                        target_node_id@,
                        *cardinality,
                    ));
                }
                exec_add_edge(ont, edge)
            },
            OntologyCommand::CreateEdgeType { edge } => exec_add_edge(ont, edge.deep_copy()),
            OntologyCommand::DeleteEdge { edge_id } => exec_delete_edge(ont, edge_id),
            OntologyCommand::RenameEdge { edge_id, new_label } => exec_rename_edge(
                ont,
                edge_id,
                new_label,
            ),
            OntologyCommand::UpdateEdgeCardinality { edge_id, cardinality } =>
                exec_update_edge_cardinality(ont, edge_id, *cardinality),
            OntologyCommand::UpdateEdgeDescription { edge_id, description } =>
                exec_update_edge_description(ont, edge_id, description),
            OntologyCommand::SetEdgeGlossaryAnchors { edge_id, anchors } => exec_set_edge_anchors(
                ont,
                edge_id,
                anchors,
            ),
            OntologyCommand::AddProperty { owner, property } => {
                let added = exec_add_property(ont, owner, property.deep_copy());
                proof {
                    if added is Ok && property_unreferenced(ontology@, *owner, property@.id) {
                        lemma_add_property_undone(ontology@, *owner, property@);
                    }
                }
                added
            },
            OntologyCommand::DeleteProperty { owner, property_id } => exec_delete_property(
                ont,
                owner,
                property_id,
            ),
            OntologyCommand::UpdateProperty { owner, property_id, patch } => exec_update_property(
                ont,
                owner,
                property_id,
                patch,
            ),
            OntologyCommand::AddConstraint { node_id, constraint } => exec_add_constraint(
                ont,
                node_id,
                constraint.deep_copy(),
            ),
            OntologyCommand::RemoveConstraint { node_id, constraint_id } => exec_remove_constraint(
                ont,
                node_id,
                constraint_id,
            ),
            OntologyCommand::AddIndex { index } => {
                let id = index.index_id().clone();
                if push_keyed(&mut ont.indexes, index.deep_copy()) {
                    Ok(
                        CommandResult {
                            new_ontology: ont,
                            inverse: OntologyCommand::RemoveIndex { index_id: id },
                        },
                    )
                } else {
                    Err(message("index '", id.as_str(), "' already exists"))
                }
            },
            OntologyCommand::RemoveIndex { index_id } => {
                let ghost s0 = ont@.indexes;
                match remove_keyed(&mut ont.indexes, index_id.as_str()) {
                    Some(removed) => {
                        proof {
                            if keys_unique::<IndexDef>(s0) {
                                let k = first_match(s0, key_is::<IndexDef>(index_id@)).unwrap();
                                lemma_keyed_remove_push::<IndexDef>(s0, index_id@, k);
                            }
                        }
                        Ok(
                        CommandResult {
                            new_ontology: ont,
                            inverse: OntologyCommand::AddIndex { index: removed },
                        },
                    )
                    },
                    None => Err(message("index '", index_id.as_str(), "' not found")),
                }
            },
            OntologyCommand::CreateObjectMapping { mapping } => {
                let id = mapping.id.clone();
                if push_keyed(&mut ont.object_mappings, mapping.deep_copy()) {
                    Ok(
                        CommandResult {
                            new_ontology: ont,
                            inverse: OntologyCommand::DeleteObjectMapping { id },
                        },
                    )
                } else {
                    Err(message("object mapping '", id.as_str(), "' already exists"))
                }
            },
            OntologyCommand::UpdateObjectMapping { id, mapping } => {
                match replace_keyed(&mut ont.object_mappings, id.as_str(), mapping.deep_copy()) {
                    Some(old) => Ok(
                        CommandResult {
                            new_ontology: ont,
                            inverse: OntologyCommand::UpdateObjectMapping {
                                id: id.clone(),
                                mapping: Box::new(old),
                            },
                        },
                    ),
                    None => Err(message("object mapping '", id.as_str(), "' not found or id mismatch")),
                }
            },
            OntologyCommand::DeleteObjectMapping { id } => {
                let ghost s0 = ont@.object_mappings;
                match remove_keyed(&mut ont.object_mappings, id.as_str()) {
                    Some(removed) => {
                        proof {
                            if keys_unique::<ObjectMappingDef>(s0) {
                                let k = first_match(s0, key_is::<ObjectMappingDef>(id@)).unwrap();
                                lemma_keyed_remove_push::<ObjectMappingDef>(s0, id@, k);
                            }
                        }
                        Ok(
                        CommandResult {
                            new_ontology: ont,
                            inverse: OntologyCommand::CreateObjectMapping {
                                mapping: Box::new(removed),
                            },
                        },
                    )
                    },
                    None => Err(message("object mapping '", id.as_str(), "' not found")),
                }
            },
            OntologyCommand::CreateLinkMapping { mapping } => {
                let id = mapping.id.clone();
                if push_keyed(&mut ont.link_mappings, mapping.deep_copy()) {
                    Ok(
                        CommandResult {
                            new_ontology: ont,
                            inverse: OntologyCommand::DeleteLinkMapping { id },
                        },
                    )
                } else {
                    Err(message("link mapping '", id.as_str(), "' already exists"))
                }
            },
            OntologyCommand::UpdateLinkMapping { id, mapping } => {
                match replace_keyed(&mut ont.link_mappings, id.as_str(), mapping.deep_copy()) {
                    Some(old) => Ok(
                        CommandResult {
                            new_ontology: ont,
                            inverse: OntologyCommand::UpdateLinkMapping {
                                id: id.clone(),
                                mapping: Box::new(old),
                            },
                        },
                    ),
                    None => Err(message("link mapping '", id.as_str(), "' not found or id mismatch")),
                }
            },
            OntologyCommand::DeleteLinkMapping { id } => {
                let ghost s0 = ont@.link_mappings;
                match remove_keyed(&mut ont.link_mappings, id.as_str()) {
                    Some(removed) => {
                        proof {
                            if keys_unique::<LinkMappingDef>(s0) {
                                let k = first_match(s0, key_is::<LinkMappingDef>(id@)).unwrap();
                                lemma_keyed_remove_push::<LinkMappingDef>(s0, id@, k);
                            }
                        }
                        Ok(
                        CommandResult {
                            new_ontology: ont,
                            inverse: OntologyCommand::CreateLinkMapping {
                                mapping: Box::new(removed),
                            },
                        },
                    )
                    },
                    None => Err(message("link mapping '", id.as_str(), "' not found")),
                }
            },
            OntologyCommand::Batch { description, commands } => {
                let ghost cs = commands@;
                let ghost m0 = ont@;
                let mut current = ont;
                let mut inverses: Vec<OntologyCommand> = Vec::new();
                let n = commands.len();
                let mut i: usize = 0;
                assert(cs.subrange(0, n as int) =~= cs);
                assert(cs.subrange(0, 0) =~= Seq::<OntologyCommand>::empty());
                while i < n
                    invariant
                        n == commands.len(),
                        cs == commands@,
                        i <= n,
                        *self == (OntologyCommand::Batch {
                            description: *description,
                            commands: *commands,
                        }),
                        m0 == ontology@,
                        step(*self, m0) == run_all(cs, m0),
                        run_all(cs, m0) == run_all(cs.subrange(i as int, n as int), current@),
                        run_all(cs.subrange(0, i as int), m0) == Some(current@),
                        all_undo_restore(cs, m0) ==> all_undo_restore(cs.subrange(i as int, n as int), current@)
                            && run_all(inverses@.reverse(), current@) == Some(m0),
                    decreases n - i,
                {
                    let ghost cur = current@;
                    let ghost invs = inverses@;
                    proof {
                        assert(cs.subrange(i as int, n as int)[0] == cs[i as int]);
                        assert(cs.subrange(i as int, n as int).subrange(1, (n - i) as int)
                            =~= cs.subrange(i + 1, n as int));
                        assert(decreases_to!(*self => *commands));
                        assert(decreases_to!(*commands => commands@));
                        assert(decreases_to!(commands@ => commands@[i as int]));
                    }
                    match commands[i].execute_inner(current) {
                        Ok(result) => {
                            let ghost inv = result.inverse;
                            let ghost next = result.new_ontology@;
                            current = result.new_ontology;
                            inverses.push(result.inverse);
                            proof {
                                assert(cs.subrange(0, i + 1) =~= cs.subrange(0, i as int) + seq![cs[i as int]]);
                                lemma_run_all_concat(cs.subrange(0, i as int), seq![cs[i as int]], m0);
                                lemma_batch_of_one(cs[i as int], cur);
                                if all_undo_restore(cs, m0) {
                                    let rest = cs.subrange(i as int, n as int);
                                    assert(rest[0] == cs[i as int]);
                                    assert(rest.subrange(1, rest.len() as int) =~= cs.subrange(i + 1, n as int));
                                    lemma_reverse_push(invs, inv);
                                    lemma_run_all_concat(seq![inv], invs.reverse(), next);
                                    lemma_batch_of_one(inv, next);
                                }
                            }
                        },
                        Err(e) => {
                            assert(run_all(cs.subrange(i as int, n as int), cur) is None);
                            assert(first_refusal(cs, m0, i as int));
                            let mut text = String::from_str("batch command #");
                            let position = decimal_string(i as u64);
                            text.append(position.as_str());
                            text.append(" failed: ");
                            text.append(e.as_str());
                            proof {
                                let ii: int = i as int;
                                assert(first_refusal(commands@, ontology@, ii));
                                assert(text@ == batch_failure_text(ii as nat, e@));
                                lemma_first_refused(cs, m0, ii);
                            }
                            return Err(text);
                        },
                    }
                    i = i + 1;
                }
                let mut undo: Vec<OntologyCommand> = Vec::new();
                let ghost all_rev = inverses@.reverse();
                assert(undo@ + inverses@.reverse() =~= all_rev);
                while inverses.len() > 0
                    invariant
                        undo@ + inverses@.reverse() == all_rev,
                    decreases inverses.len(),
                {
                    let ghost s0 = inverses@;
                    match inverses.pop() {
                        Some(c) => {
                            proof {
                                assert(s0 =~= inverses@.push(c));
                                lemma_reverse_push(inverses@, c);
                                assert(undo@.push(c) + inverses@.reverse() =~= undo@ + s0.reverse());
                            }
                            undo.push(c);
                        },
                        None => {},
                    }
                }
                assert(undo@ =~= all_rev);
                proof {
                    assert(cs.subrange(n as int, n as int) =~= Seq::<OntologyCommand>::empty());
                    lemma_run_all_refuses_nothing(cs, m0);
                }
                let mut text = String::from_str("undo: ");
                text.append(description.as_str());
                Ok(
                    CommandResult {
                        new_ontology: current,
                        inverse: OntologyCommand::Batch { description: text, commands: undo },
                    },
                )
            },
        }
    }
}

} // verus!
