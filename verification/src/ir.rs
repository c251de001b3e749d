//! The ontology model: node and edge types with their properties,
//! constraints and indexes, the source mappings that bind them to
//! relations, and the validation rules.

use vstd::prelude::*;

use crate::binding::PropertyBinding;
use crate::model::{copy_opt_text, copy_texts, copy_vec, models, opt_text, texts, DeepCopy, Keyed};
use crate::rule::{Bilingual, BilingualModel, RuleDef};
use crate::text::str_equal;

verus! {

/// Value type of a property.
#[derive(Debug, Clone, Copy, PartialEq, Eq, Default, Structural)]
pub enum PropertyType {
    Bool,
    Int,
    Float,
    #[default]
    String,
    Date,
    DateTime,
    Duration,
    Bytes,
    KeyValueMap,
}

/// A property of a node or edge type.
#[derive(Debug, Clone, PartialEq, Eq, Default)]
pub struct PropertyDef {
    pub id: String,
    pub name: String,
    pub property_type: PropertyType,
    pub nullable: bool,
    /// Default value in its textual form.
    pub default_value: Option<String>,
    pub description: String,
    pub bindings: Vec<PropertyBinding>,
    /// Function the property is computed by.
    pub derived_from: Option<String>,
    /// Coded value naming the property's unit.
    pub unit_id: Option<String>,
    /// Operator-facing label.
    pub display_name: Bilingual,
    /// Alternate names: synonyms and abbreviations.
    pub aliases: Vec<Bilingual>,
    /// Free-form note on what the property means to the business.
    pub business_context: Bilingual,
}

/// Model of a [`PropertyDef`].
pub struct PropertyModel {
    pub id: Seq<char>,
    pub name: Seq<char>,
    pub property_type: PropertyType,
    pub nullable: bool,
    pub default_value: Option<Seq<char>>,
    pub description: Seq<char>,
    pub bindings: Seq<crate::binding::BindingModel>,
    pub derived_from: Option<Seq<char>>,
    pub unit_id: Option<Seq<char>>,
    pub display_name: BilingualModel,
    pub aliases: Seq<BilingualModel>,
    pub business_context: BilingualModel,
}

impl View for PropertyDef {
    type V = PropertyModel;

    open spec fn view(&self) -> PropertyModel {
        PropertyModel {
            id: self.id@,
            name: self.name@,
            property_type: self.property_type,
            nullable: self.nullable,
            default_value: opt_text(self.default_value),
            description: self.description@,
            bindings: models(self.bindings@),
            derived_from: opt_text(self.derived_from),
            unit_id: opt_text(self.unit_id),
            display_name: self.display_name@,
            aliases: models(self.aliases@),
            business_context: self.business_context@,
        }
    }
}

impl DeepCopy for PropertyDef {
    fn deep_copy(&self) -> (r: PropertyDef) {
        PropertyDef {
            id: self.id.clone(),
            name: self.name.clone(),
            property_type: self.property_type,
            nullable: self.nullable,
            default_value: copy_opt_text(&self.default_value),
            description: self.description.clone(),
            bindings: copy_vec(&self.bindings),
            derived_from: copy_opt_text(&self.derived_from),
            unit_id: copy_opt_text(&self.unit_id),
            display_name: self.display_name.deep_copy(),
            aliases: copy_vec(&self.aliases),
            business_context: self.business_context.deep_copy(),
        }
    }
}

/// A glossary binding.
pub open spec fn is_glossary_binding() -> spec_fn(crate::binding::BindingModel) -> bool {
    |b: crate::binding::BindingModel| b.kind == crate::binding::BindingKind::Glossary
}

/// The glossary term a property list of bindings names first, if any.
pub open spec fn glossary_term_of(bs: Seq<crate::binding::BindingModel>) -> Option<Seq<char>> {
    match crate::model::first_match(bs, is_glossary_binding()) {
        Some(i) => Some(bs[i].id),
        None => None,
    }
}

/// Bindings that name a concept.
pub open spec fn is_concept_binding() -> spec_fn(crate::binding::BindingModel) -> bool {
    |b: crate::binding::BindingModel| b.kind == crate::binding::BindingKind::Concept
}

/// The concept a property's bindings name first, if any.
pub open spec fn concept_of(bs: Seq<crate::binding::BindingModel>) -> Option<Seq<char>> {
    match crate::model::first_match(bs, is_concept_binding()) {
        Some(i) => Some(bs[i].id),
        None => None,
    }
}

impl PropertyDef {
    /// The concept the property realises: that of its first concept
    /// binding.
    pub fn concept_id(&self) -> (r: Option<&String>)
        ensures
            match r {
                Some(id) => concept_of(self@.bindings) == Some(id@),
                None => concept_of(self@.bindings) is None,
            },
    {
        let ghost bs = self@.bindings;
        let mut i: usize = 0;
        while i < self.bindings.len()
            invariant
                i <= self.bindings.len(),
                bs == self@.bindings,
                forall|j: int| 0 <= j < i ==> !is_concept_binding()(#[trigger] bs[j]),
            decreases self.bindings.len() - i,
        {
            match &self.bindings[i] {
                crate::binding::PropertyBinding::Concept { id, .. } => {
                    proof {
                        crate::model::lemma_first_match_scan(bs, is_concept_binding(), i as int);
                    }
                    return Some(id);
                },
                _ => {},
            }
            i = i + 1;
        }
        proof {
            crate::model::lemma_first_match_scan(bs, is_concept_binding(), i as int);
        }
        None
    }

    /// The glossary term the property is bound to: that of its first
    /// glossary binding.
    pub fn glossary_term_id(&self) -> (r: Option<&String>)
        ensures
            match r {
                Some(id) => glossary_term_of(self@.bindings) == Some(id@),
                None => glossary_term_of(self@.bindings) is None,
            },
    {
        let ghost bs = self@.bindings;
        let mut i: usize = 0;
        while i < self.bindings.len()
            invariant
                i <= self.bindings.len(),
                bs == self@.bindings,
                forall|j: int| 0 <= j < i ==> !is_glossary_binding()(#[trigger] bs[j]),
            decreases self.bindings.len() - i,
        {
            match &self.bindings[i] {
                crate::binding::PropertyBinding::Glossary { id, .. } => {
                    proof {
                        crate::model::lemma_first_match_scan(bs, is_glossary_binding(), i as int);
                    }
                    return Some(id);
                },
                _ => {},
            }
            i = i + 1;
        }
        proof {
            crate::model::lemma_first_match_scan(bs, is_glossary_binding(), i as int);
        }
        None
    }
}

/// Node-level constraint over properties.
#[derive(Debug, Clone, PartialEq, Eq)]
pub enum NodeConstraint {
    Unique { property_ids: Vec<String> },
    Exists { property_id: String },
    NodeKey { property_ids: Vec<String> },
}

/// Kinds of [`NodeConstraint`].
#[derive(Debug, Clone, Copy, PartialEq, Eq, Structural)]
pub enum NodeConstraintKind {
    Unique,
    Exists,
    NodeKey,
}

/// A named node constraint.
#[derive(Debug, Clone, PartialEq, Eq)]
pub struct ConstraintDef {
    pub id: String,
    pub constraint: NodeConstraint,
}

/// Model of a [`ConstraintDef`]: id, kind and referenced property ids.
pub struct ConstraintModel {
    pub id: Seq<char>,
    pub kind: NodeConstraintKind,
    pub property_ids: Seq<Seq<char>>,
}

impl View for ConstraintDef {
    type V = ConstraintModel;

    open spec fn view(&self) -> ConstraintModel {
        match &self.constraint {
            NodeConstraint::Unique { property_ids } => ConstraintModel {
                id: self.id@,
                kind: NodeConstraintKind::Unique,
                property_ids: texts(property_ids@),
            },
            NodeConstraint::Exists { property_id } => ConstraintModel {
                id: self.id@,
                kind: NodeConstraintKind::Exists,
                property_ids: seq![property_id@],
            },
            NodeConstraint::NodeKey { property_ids } => ConstraintModel {
                id: self.id@,
                kind: NodeConstraintKind::NodeKey,
                property_ids: texts(property_ids@),
            },
        }
    }
}

impl DeepCopy for ConstraintDef {
    fn deep_copy(&self) -> (r: ConstraintDef) {
        let constraint = match &self.constraint {
            NodeConstraint::Unique { property_ids } => NodeConstraint::Unique {
                property_ids: copy_texts(property_ids),
            },
            NodeConstraint::Exists { property_id } => NodeConstraint::Exists {
                property_id: property_id.clone(),
            },
            NodeConstraint::NodeKey { property_ids } => NodeConstraint::NodeKey {
                property_ids: copy_texts(property_ids),
            },
        };
        ConstraintDef { id: self.id.clone(), constraint }
    }
}

/// Edge multiplicity.
#[derive(Debug, Clone, Copy, PartialEq, Eq, Default, Structural)]
pub enum Cardinality {
    OneToOne,
    OneToMany,
    ManyToOne,
    #[default]
    ManyToMany,
}

/// A node type.
#[derive(Debug, Clone, PartialEq, Eq, Default)]
pub struct NodeTypeDef {
    pub id: String,
    pub label: String,
    pub description: String,
    pub properties: Vec<PropertyDef>,
    pub constraints: Vec<ConstraintDef>,
    /// Interfaces the node type implements.
    pub implements: Vec<String>,
    /// Rules attached directly to the node type.
    pub rules: Vec<String>,
    /// Actions attached to the node type.
    pub actions: Vec<String>,
    /// Metrics scoped to the node type.
    pub metrics: Vec<String>,
    pub glossary_anchors: Vec<String>,
    /// The concept the node type realises.
    pub concept_id: Option<String>,
    /// Deprecation instant, seconds since the Unix epoch.
    pub deprecated_at: Option<i64>,
    pub replaced_by_id: Option<String>,
}

/// Model of a [`NodeTypeDef`].
pub struct NodeModel {
    pub id: Seq<char>,
    pub label: Seq<char>,
    pub description: Seq<char>,
    pub properties: Seq<PropertyModel>,
    pub constraints: Seq<ConstraintModel>,
    pub implements: Seq<Seq<char>>,
    pub rules: Seq<Seq<char>>,
    pub actions: Seq<Seq<char>>,
    pub metrics: Seq<Seq<char>>,
    pub glossary_anchors: Seq<Seq<char>>,
    pub concept_id: Option<Seq<char>>,
    pub deprecated_at: Option<i64>,
    pub replaced_by_id: Option<Seq<char>>,
}

impl View for NodeTypeDef {
    type V = NodeModel;

    open spec fn view(&self) -> NodeModel {
        NodeModel {
            id: self.id@,
            label: self.label@,
            description: self.description@,
            properties: models(self.properties@),
            constraints: models(self.constraints@),
            implements: texts(self.implements@),
            rules: texts(self.rules@),
            actions: texts(self.actions@),
            metrics: texts(self.metrics@),
            glossary_anchors: texts(self.glossary_anchors@),
            concept_id: opt_text(self.concept_id),
            deprecated_at: self.deprecated_at,
            replaced_by_id: opt_text(self.replaced_by_id),
        }
    }
}

impl DeepCopy for NodeTypeDef {
    fn deep_copy(&self) -> (r: NodeTypeDef) {
        NodeTypeDef {
            id: self.id.clone(),
            label: self.label.clone(),
            description: self.description.clone(),
            properties: copy_vec(&self.properties),
            constraints: copy_vec(&self.constraints),
            implements: copy_texts(&self.implements),
            rules: copy_texts(&self.rules),
            actions: copy_texts(&self.actions),
            metrics: copy_texts(&self.metrics),
            glossary_anchors: copy_texts(&self.glossary_anchors),
            concept_id: copy_opt_text(&self.concept_id),
            deprecated_at: self.deprecated_at,
            replaced_by_id: copy_opt_text(&self.replaced_by_id),
        }
    }
}

/// An edge type between two node types.
#[derive(Debug, Clone, PartialEq, Eq, Default)]
pub struct EdgeTypeDef {
    pub id: String,
    pub label: String,
    pub description: String,
    pub source_node_id: String,
    pub target_node_id: String,
    pub properties: Vec<PropertyDef>,
    pub cardinality: Cardinality,
    pub glossary_anchors: Vec<String>,
    /// The concept the edge type realises.
    pub concept_id: Option<String>,
    pub deprecated_at: Option<i64>,
    pub replaced_by_id: Option<String>,
}

/// Model of an [`EdgeTypeDef`].
pub struct EdgeModel {
    pub id: Seq<char>,
    pub label: Seq<char>,
    pub description: Seq<char>,
    pub source_node_id: Seq<char>,
    pub target_node_id: Seq<char>,
    pub properties: Seq<PropertyModel>,
    pub cardinality: Cardinality,
    pub glossary_anchors: Seq<Seq<char>>,
    pub concept_id: Option<Seq<char>>,
    pub deprecated_at: Option<i64>,
    pub replaced_by_id: Option<Seq<char>>,
}

impl View for EdgeTypeDef {
    type V = EdgeModel;

    open spec fn view(&self) -> EdgeModel {
        EdgeModel {
            id: self.id@,
            label: self.label@,
            description: self.description@,
            source_node_id: self.source_node_id@,
            target_node_id: self.target_node_id@,
            properties: models(self.properties@),
            cardinality: self.cardinality,
            glossary_anchors: texts(self.glossary_anchors@),
            concept_id: opt_text(self.concept_id),
            deprecated_at: self.deprecated_at,
            replaced_by_id: opt_text(self.replaced_by_id),
        }
    }
}

impl DeepCopy for EdgeTypeDef {
    fn deep_copy(&self) -> (r: EdgeTypeDef) {
        EdgeTypeDef {
            id: self.id.clone(),
            label: self.label.clone(),
            description: self.description.clone(),
            source_node_id: self.source_node_id.clone(),
            target_node_id: self.target_node_id.clone(),
            properties: copy_vec(&self.properties),
            cardinality: self.cardinality,
            glossary_anchors: copy_texts(&self.glossary_anchors),
            concept_id: copy_opt_text(&self.concept_id),
            deprecated_at: self.deprecated_at,
            replaced_by_id: copy_opt_text(&self.replaced_by_id),
        }
    }
}

/// Vector-index similarity metric.
#[derive(Debug, Clone, Copy, PartialEq, Eq, Structural)]
pub enum VectorSimilarity {
    Cosine,
    Euclidean,
}

/// A property index on a node type.
#[derive(Debug, Clone, PartialEq, Eq)]
pub enum IndexDef {
    Single { id: String, node_id: String, property_id: String },
    Composite { id: String, node_id: String, property_ids: Vec<String> },
    FullText { id: String, name: String, node_id: String, property_ids: Vec<String> },
    Vector {
        id: String,
        node_id: String,
        property_id: String,
        dimensions: u32,
        similarity: VectorSimilarity,
    },
}

/// Kinds of [`IndexDef`].
#[derive(Debug, Clone, Copy, PartialEq, Eq, Structural)]
pub enum IndexKind {
    Single,
    Composite,
    FullText,
    Vector,
}

/// Model of an [`IndexDef`]; fields a kind lacks are empty or zero.
pub struct IndexModel {
    pub kind: IndexKind,
    pub id: Seq<char>,
    pub name: Seq<char>,
    pub node_id: Seq<char>,
    pub property_ids: Seq<Seq<char>>,
    pub dimensions: u32,
    pub similarity: Option<VectorSimilarity>,
}

impl View for IndexDef {
    type V = IndexModel;

    open spec fn view(&self) -> IndexModel {
        match self {
            IndexDef::Single { id, node_id, property_id } => IndexModel {
                kind: IndexKind::Single,
                id: id@,
                name: Seq::empty(),
                node_id: node_id@,
                property_ids: seq![property_id@],
                dimensions: 0,
                similarity: None,
            },
            IndexDef::Composite { id, node_id, property_ids } => IndexModel {
                kind: IndexKind::Composite,
                id: id@,
                name: Seq::empty(),
                node_id: node_id@,
                property_ids: texts(property_ids@),
                dimensions: 0,
                similarity: None,
            },
            IndexDef::FullText { id, name, node_id, property_ids } => IndexModel {
                kind: IndexKind::FullText,
                id: id@,
                name: name@,
                node_id: node_id@,
                property_ids: texts(property_ids@),
                dimensions: 0,
                similarity: None,
            },
            IndexDef::Vector { id, node_id, property_id, dimensions, similarity } => IndexModel {
                kind: IndexKind::Vector,
                id: id@,
                name: Seq::empty(),
                node_id: node_id@,
                property_ids: seq![property_id@],
                dimensions: *dimensions,
                similarity: Some(*similarity),
            },
        }
    }
}

impl DeepCopy for IndexDef {
    fn deep_copy(&self) -> (r: IndexDef) {
        match self {
            IndexDef::Single { id, node_id, property_id } => IndexDef::Single {
                id: id.clone(),
                node_id: node_id.clone(),
                property_id: property_id.clone(),
            },
            IndexDef::Composite { id, node_id, property_ids } => IndexDef::Composite {
                id: id.clone(),
                node_id: node_id.clone(),
                property_ids: copy_texts(property_ids),
            },
            IndexDef::FullText { id, name, node_id, property_ids } => IndexDef::FullText {
                id: id.clone(),
                name: name.clone(),
                node_id: node_id.clone(),
                property_ids: copy_texts(property_ids),
            },
            IndexDef::Vector { id, node_id, property_id, dimensions, similarity } =>
                IndexDef::Vector {
                id: id.clone(),
                node_id: node_id.clone(),
                property_id: property_id.clone(),
                dimensions: *dimensions,
                similarity: *similarity,
            },
        }
    }
}

impl IndexDef {
    /// The index's id.
    pub fn index_id(&self) -> (r: &String)
        ensures
            r@ == self@.id,
    {
        match self {
            IndexDef::Single { id, .. }
            | IndexDef::Composite { id, .. }
            | IndexDef::FullText { id, .. }
            | IndexDef::Vector { id, .. } => id,
        }
    }

    /// The node type the index belongs to.
    pub fn index_node_id(&self) -> (r: &String)
        ensures
            r@ == self@.node_id,
    {
        match self {
            IndexDef::Single { node_id, .. }
            | IndexDef::Composite { node_id, .. }
            | IndexDef::FullText { node_id, .. }
            | IndexDef::Vector { node_id, .. } => node_id,
        }
    }

    /// Whether the index covers the given property.
    pub fn references_property(&self, property_id: &str) -> (r: bool)
        ensures
            r == self@.property_ids.contains(property_id@),
    {
        match self {
            IndexDef::Single { property_id: p, .. } | IndexDef::Vector { property_id: p, .. } => {
                let r = str_equal(p.as_str(), property_id);
                proof {
                    if self@.property_ids.contains(property_id@) {
                        let k = choose|k: int|
                            0 <= k < self@.property_ids.len() && self@.property_ids[k]
                                == property_id@;
                        assert(k == 0);
                    }
                    if r {
                        assert(self@.property_ids[0] == property_id@);
                    }
                }
                r
            },
            IndexDef::Composite { property_ids, .. } | IndexDef::FullText { property_ids, .. } => {
                crate::model::contains_text(property_ids, property_id)
            },
        }
    }
}

impl ConstraintDef {
    /// Whether the constraint references the given property.
    pub fn references_property(&self, property_id: &str) -> (r: bool)
        ensures
            r == self@.property_ids.contains(property_id@),
    {
        match &self.constraint {
            NodeConstraint::Unique { property_ids } | NodeConstraint::NodeKey { property_ids } => {
                crate::model::contains_text(property_ids, property_id)
            },
            NodeConstraint::Exists { property_id: p } => {
                let r = str_equal(p.as_str(), property_id);
                proof {
                    if self@.property_ids.contains(property_id@) {
                        let k = choose|k: int|
                            0 <= k < self@.property_ids.len() && self@.property_ids[k]
                                == property_id@;
                        assert(k == 0);
                    }
                    if r {
                        assert(self@.property_ids[0] == property_id@);
                    }
                }
                r
            },
        }
    }
}

/// Where a mapped property's value comes from.
#[derive(Debug, Clone, PartialEq, Eq)]
pub enum PropertyLocation {
    Column { column: String },
    JsonPath { column: String, path: String },
}

/// One property of an object mapping.
#[derive(Debug, Clone, PartialEq, Eq)]
pub struct PropertyMapping {
    pub property_id: String,
    pub location: PropertyLocation,
}

/// Model of a [`PropertyMapping`]: property id, column and JSON path
/// (`None` for plain column locations).
pub struct PropertyMappingModel {
    pub property_id: Seq<char>,
    pub column: Seq<char>,
    pub path: Option<Seq<char>>,
}

impl View for PropertyMapping {
    type V = PropertyMappingModel;

    open spec fn view(&self) -> PropertyMappingModel {
        match &self.location {
            PropertyLocation::Column { column } => PropertyMappingModel {
                property_id: self.property_id@,
                column: column@,
                path: None,
            },
            PropertyLocation::JsonPath { column, path } => PropertyMappingModel {
                property_id: self.property_id@,
                column: column@,
                path: Some(path@),
            },
        }
    }
}

impl DeepCopy for PropertyMapping {
    fn deep_copy(&self) -> (r: PropertyMapping) {
        let location = match &self.location {
            PropertyLocation::Column { column } => PropertyLocation::Column {
                column: column.clone(),
            },
            PropertyLocation::JsonPath { column, path } => PropertyLocation::JsonPath {
                column: column.clone(),
                path: path.clone(),
            },
        };
        PropertyMapping { property_id: self.property_id.clone(), location }
    }
}

/// Binding of a node type to a source relation.
#[derive(Debug, Clone, PartialEq, Eq)]
pub struct ObjectMappingDef {
    pub id: String,
    pub source_id: String,
    pub relation: String,
    pub node_type_id: String,
    pub precedence: i32,
    pub property_mappings: Vec<PropertyMapping>,
}

/// Model of an [`ObjectMappingDef`].
pub struct ObjectMappingModel {
    pub id: Seq<char>,
    pub source_id: Seq<char>,
    pub relation: Seq<char>,
    pub node_type_id: Seq<char>,
    pub precedence: i32,
    pub property_mappings: Seq<PropertyMappingModel>,
}

impl View for ObjectMappingDef {
    type V = ObjectMappingModel;

    open spec fn view(&self) -> ObjectMappingModel {
        ObjectMappingModel {
            id: self.id@,
            source_id: self.source_id@,
            relation: self.relation@,
            node_type_id: self.node_type_id@,
            precedence: self.precedence,
            property_mappings: models(self.property_mappings@),
        }
    }
}

impl DeepCopy for ObjectMappingDef {
    fn deep_copy(&self) -> (r: ObjectMappingDef) {
        ObjectMappingDef {
            id: self.id.clone(),
            source_id: self.source_id.clone(),
            relation: self.relation.clone(),
            node_type_id: self.node_type_id.clone(),
            precedence: self.precedence,
            property_mappings: copy_vec(&self.property_mappings),
        }
    }
}

/// A `(source, relation)` pair one side of a link mapping reads from.
#[derive(Debug, Clone, PartialEq, Eq)]
pub struct RelationEndpoint {
    pub source_id: String,
    pub relation: String,
}

/// How a link mapping realises its edge type; a computed link carries
/// its join predicate.
#[derive(Debug, Clone, PartialEq, Eq)]
pub enum LinkMappingKind {
    ForeignKey,
    Bridge,
    Computed { predicate: String },
    Federated,
}

/// Model of a [`LinkMappingKind`].
pub enum LinkKindModel {
    ForeignKey,
    Bridge,
    Computed { predicate: Seq<char> },
    Federated,
}

impl View for LinkMappingKind {
    type V = LinkKindModel;

    open spec fn view(&self) -> LinkKindModel {
        match self {
            LinkMappingKind::ForeignKey => LinkKindModel::ForeignKey,
            LinkMappingKind::Bridge => LinkKindModel::Bridge,
            LinkMappingKind::Computed { predicate } => LinkKindModel::Computed { predicate: predicate@ },
            LinkMappingKind::Federated => LinkKindModel::Federated,
        }
    }
}

impl DeepCopy for LinkMappingKind {
    fn deep_copy(&self) -> (r: LinkMappingKind) {
        match self {
            LinkMappingKind::ForeignKey => LinkMappingKind::ForeignKey,
            LinkMappingKind::Bridge => LinkMappingKind::Bridge,
            LinkMappingKind::Computed { predicate } => LinkMappingKind::Computed { predicate: predicate.clone() },
            LinkMappingKind::Federated => LinkMappingKind::Federated,
        }
    }
}

/// Binding of an edge type to source relations.
#[derive(Debug, Clone, PartialEq, Eq)]
pub struct LinkMappingDef {
    pub id: String,
    pub edge_type_id: String,
    pub source_endpoint: RelationEndpoint,
    pub target_endpoint: RelationEndpoint,
    pub kind: LinkMappingKind,
}

/// Model of a [`LinkMappingDef`].
pub struct LinkMappingModel {
    pub id: Seq<char>,
    pub edge_type_id: Seq<char>,
    pub source_endpoint: (Seq<char>, Seq<char>),
    pub target_endpoint: (Seq<char>, Seq<char>),
    pub kind: LinkKindModel,
}

impl View for LinkMappingDef {
    type V = LinkMappingModel;

    open spec fn view(&self) -> LinkMappingModel {
        LinkMappingModel {
            id: self.id@,
            edge_type_id: self.edge_type_id@,
            source_endpoint: (self.source_endpoint.source_id@, self.source_endpoint.relation@),
            target_endpoint: (self.target_endpoint.source_id@, self.target_endpoint.relation@),
            kind: self.kind@,
        }
    }
}

impl DeepCopy for LinkMappingDef {
    fn deep_copy(&self) -> (r: LinkMappingDef) {
        LinkMappingDef {
            id: self.id.clone(),
            edge_type_id: self.edge_type_id.clone(),
            source_endpoint: RelationEndpoint {
                source_id: self.source_endpoint.source_id.clone(),
                relation: self.source_endpoint.relation.clone(),
            },
            target_endpoint: RelationEndpoint {
                source_id: self.target_endpoint.source_id.clone(),
                relation: self.target_endpoint.relation.clone(),
            },
            kind: self.kind.deep_copy(),
        }
    }
}

/// An ontology: its identity, topology, mappings and rules.
#[derive(Debug, Clone, PartialEq, Eq, Default)]
pub struct OntologyIR {
    pub id: String,
    pub name: String,
    pub description: String,
    pub version: u32,
    pub node_types: Vec<NodeTypeDef>,
    pub edge_types: Vec<EdgeTypeDef>,
    pub indexes: Vec<IndexDef>,
    pub object_mappings: Vec<ObjectMappingDef>,
    pub link_mappings: Vec<LinkMappingDef>,
    pub rules: Vec<RuleDef>,
    /// Lookups that fill node-type properties from outside sources.
    pub enrichments: Vec<crate::enrichment::EnrichmentDef>,
    /// Typed operations on node and edge types.
    pub actions: Vec<crate::action::ActionDef>,
    /// Code systems, value sets, concept maps and the other registries
    /// properties and rules point into.
    pub registries: crate::registry::Registries,
}

/// Model of an [`OntologyIR`].
pub struct OntologyModel {
    pub id: Seq<char>,
    pub name: Seq<char>,
    pub description: Seq<char>,
    pub version: u32,
    pub node_types: Seq<NodeModel>,
    pub edge_types: Seq<EdgeModel>,
    pub indexes: Seq<IndexModel>,
    pub object_mappings: Seq<ObjectMappingModel>,
    pub link_mappings: Seq<LinkMappingModel>,
    pub rules: Seq<crate::rule::RuleModel>,
    pub enrichments: Seq<crate::enrichment::EnrichmentModel>,
    pub actions: Seq<crate::action::ActionModel>,
    pub registries: crate::registry::RegistriesModel,
}

impl View for OntologyIR {
    type V = OntologyModel;

    open spec fn view(&self) -> OntologyModel {
        OntologyModel {
            id: self.id@,
            name: self.name@,
            description: self.description@,
            version: self.version,
            node_types: models(self.node_types@),
            edge_types: models(self.edge_types@),
            indexes: models(self.indexes@),
            object_mappings: models(self.object_mappings@),
            link_mappings: models(self.link_mappings@),
            rules: models(self.rules@),
            enrichments: models(self.enrichments@),
            actions: models(self.actions@),
            registries: self.registries@,
        }
    }
}

impl DeepCopy for OntologyIR {
    fn deep_copy(&self) -> (r: OntologyIR) {
        OntologyIR {
            id: self.id.clone(),
            name: self.name.clone(),
            description: self.description.clone(),
            version: self.version,
            node_types: copy_vec(&self.node_types),
            edge_types: copy_vec(&self.edge_types),
            indexes: copy_vec(&self.indexes),
            object_mappings: copy_vec(&self.object_mappings),
            link_mappings: copy_vec(&self.link_mappings),
            rules: copy_vec(&self.rules),
            enrichments: copy_vec(&self.enrichments),
            actions: copy_vec(&self.actions),
            registries: self.registries.deep_copy(),
        }
    }
}


impl Keyed for PropertyDef {
    open spec fn key_of(m: PropertyModel) -> Seq<char> {
        m.id
    }

    fn key(&self) -> (r: &String) {
        &self.id
    }
}

impl Keyed for ConstraintDef {
    open spec fn key_of(m: ConstraintModel) -> Seq<char> {
        m.id
    }

    fn key(&self) -> (r: &String) {
        &self.id
    }
}

impl Keyed for NodeTypeDef {
    open spec fn key_of(m: NodeModel) -> Seq<char> {
        m.id
    }

    fn key(&self) -> (r: &String) {
        &self.id
    }
}

impl Keyed for EdgeTypeDef {
    open spec fn key_of(m: EdgeModel) -> Seq<char> {
        m.id
    }

    fn key(&self) -> (r: &String) {
        &self.id
    }
}

impl Keyed for ObjectMappingDef {
    open spec fn key_of(m: ObjectMappingModel) -> Seq<char> {
        m.id
    }

    fn key(&self) -> (r: &String) {
        &self.id
    }
}

impl Keyed for LinkMappingDef {
    open spec fn key_of(m: LinkMappingModel) -> Seq<char> {
        m.id
    }

    fn key(&self) -> (r: &String) {
        &self.id
    }
}

impl Keyed for IndexDef {
    open spec fn key_of(m: IndexModel) -> Seq<char> {
        m.id
    }

    fn key(&self) -> (r: &String) {
        self.index_id()
    }
}

} // verus!
