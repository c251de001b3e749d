//! Property → registry semantic bindings.
//!
//! A [`PropertyBinding`] ties a property to a value set, code system,
//! notation pattern, value-range set, glossary term or concept, optionally with
//! a strength and a validity window `[valid_from, valid_to)`. Instants
//! are seconds since the Unix epoch.

use vstd::prelude::*;

use crate::model::{copy_opt_text, opt_text, DeepCopy};
use crate::text::str_equal;

verus! {

/// How strongly a binding constrains the property's values.
#[derive(Debug, Clone, Copy, PartialEq, Eq, Default, Structural)]
pub enum BindingStrength {
    Required,
    #[default]
    Preferred,
    Extensible,
    Example,
}

/// A property's link to a semantic registry entry.
#[derive(Debug, Clone, PartialEq, Eq)]
pub enum PropertyBinding {
    ValueSet {
        id: String,
        strength: BindingStrength,
        concept_map_id: Option<String>,
        valid_from: Option<i64>,
        valid_to: Option<i64>,
    },
    CodeSystem {
        id: String,
        strength: BindingStrength,
        concept_map_id: Option<String>,
        valid_from: Option<i64>,
        valid_to: Option<i64>,
    },
    NotationPattern {
        id: String,
        strength: BindingStrength,
        valid_from: Option<i64>,
        valid_to: Option<i64>,
    },
    ValueRange { id: String, valid_from: Option<i64>, valid_to: Option<i64> },
    Glossary { id: String, valid_from: Option<i64>, valid_to: Option<i64> },
    /// The property realises a concept; a semantic anchor that constrains
    /// no values.
    Concept { id: String, valid_from: Option<i64>, valid_to: Option<i64> },
}

/// Identity of a binding: its registry kind and target id.
#[derive(Debug, Clone, PartialEq, Eq, Hash)]
pub enum PropertyBindingHandle {
    ValueSet { id: String },
    CodeSystem { id: String },
    NotationPattern { id: String },
    ValueRange { id: String },
    Glossary { id: String },
    Concept { id: String },
}

/// Registry kinds a binding can target.
#[derive(Debug, Clone, Copy, PartialEq, Eq, Structural)]
pub enum BindingKind {
    ValueSet,
    CodeSystem,
    NotationPattern,
    ValueRange,
    Glossary,
    Concept,
}

/// Mathematical model of a [`PropertyBinding`].
pub struct BindingModel {
    pub kind: BindingKind,
    pub id: Seq<char>,
    pub strength: BindingStrength,
    pub concept_map_id: Option<Seq<char>>,
    pub valid_from: Option<i64>,
    pub valid_to: Option<i64>,
}

impl View for PropertyBinding {
    type V = BindingModel;

    open spec fn view(&self) -> BindingModel {
        match self {
            PropertyBinding::ValueSet { id, strength, concept_map_id, valid_from, valid_to } =>
                BindingModel {
                kind: BindingKind::ValueSet,
                id: id@,
                strength: *strength,
                concept_map_id: opt_text(*concept_map_id),
                valid_from: *valid_from,
                valid_to: *valid_to,
            },
            PropertyBinding::CodeSystem { id, strength, concept_map_id, valid_from, valid_to } =>
                BindingModel {
                kind: BindingKind::CodeSystem,
                id: id@,
                strength: *strength,
                concept_map_id: opt_text(*concept_map_id),
                valid_from: *valid_from,
                valid_to: *valid_to,
            },
            PropertyBinding::NotationPattern { id, strength, valid_from, valid_to } =>
                BindingModel {
                kind: BindingKind::NotationPattern,
                id: id@,
                strength: *strength,
                concept_map_id: None,
                valid_from: *valid_from,
                valid_to: *valid_to,
            },
            PropertyBinding::ValueRange { id, valid_from, valid_to } => BindingModel {
                kind: BindingKind::ValueRange,
                id: id@,
                strength: BindingStrength::Preferred,
                concept_map_id: None,
                valid_from: *valid_from,
                valid_to: *valid_to,
            },
            PropertyBinding::Glossary { id, valid_from, valid_to } => BindingModel {
                kind: BindingKind::Glossary,
                id: id@,
                strength: BindingStrength::Preferred,
                concept_map_id: None,
                valid_from: *valid_from,
                valid_to: *valid_to,
            },
            PropertyBinding::Concept { id, valid_from, valid_to } => BindingModel {
                kind: BindingKind::Concept,
                id: id@,
                strength: BindingStrength::Preferred,
                concept_map_id: None,
                valid_from: *valid_from,
                valid_to: *valid_to,
            },
        }
    }
}

/// Mathematical model of a [`PropertyBindingHandle`].
pub struct HandleModel {
    pub kind: BindingKind,
    pub id: Seq<char>,
}

impl View for PropertyBindingHandle {
    type V = HandleModel;

    open spec fn view(&self) -> HandleModel {
        match self {
            PropertyBindingHandle::ValueSet { id } => HandleModel {
                kind: BindingKind::ValueSet,
                id: id@,
            },
            PropertyBindingHandle::CodeSystem { id } => HandleModel {
                kind: BindingKind::CodeSystem,
                id: id@,
            },
            PropertyBindingHandle::NotationPattern { id } => HandleModel {
                kind: BindingKind::NotationPattern,
                id: id@,
            },
            PropertyBindingHandle::ValueRange { id } => HandleModel {
                kind: BindingKind::ValueRange,
                id: id@,
            },
            PropertyBindingHandle::Glossary { id } => HandleModel {
                kind: BindingKind::Glossary,
                id: id@,
            },
            PropertyBindingHandle::Concept { id } => HandleModel {
                kind: BindingKind::Concept,
                id: id@,
            },
        }
    }
}

/// The handle (kind and target) of a binding model.
pub open spec fn handle_of(b: BindingModel) -> HandleModel {
    HandleModel { kind: b.kind, id: b.id }
}

/// Whether a binding with window `[from, to)` covers the instant `at`.
pub open spec fn window_covers(from: Option<i64>, to: Option<i64>, at: i64) -> bool {
    (match from {
        Some(start) => start <= at,
        None => true,
    }) && (match to {
        Some(end) => at < end,
        None => true,
    })
}

/// Override an optional bound when a new one is given.
pub open spec fn override_bound(new: Option<i64>, old: Option<i64>) -> Option<i64> {
    match new {
        Some(t) => Some(t),
        None => old,
    }
}

/// Whether a binding kind carries an explicit strength.
pub open spec fn kind_has_strength(k: BindingKind) -> bool {
    k == BindingKind::ValueSet || k == BindingKind::CodeSystem || k
        == BindingKind::NotationPattern
}

/// Whether a binding kind carries an optional concept map.
pub open spec fn kind_has_concept_map(k: BindingKind) -> bool {
    k == BindingKind::ValueSet || k == BindingKind::CodeSystem
}

impl DeepCopy for PropertyBinding {
    fn deep_copy(&self) -> (r: PropertyBinding) {
        match self {
            PropertyBinding::ValueSet { id, strength, concept_map_id, valid_from, valid_to } =>
                PropertyBinding::ValueSet {
                id: id.clone(),
                strength: *strength,
                concept_map_id: copy_opt_text(concept_map_id),
                valid_from: *valid_from,
                valid_to: *valid_to,
            },
            PropertyBinding::CodeSystem { id, strength, concept_map_id, valid_from, valid_to } =>
                PropertyBinding::CodeSystem {
                id: id.clone(),
                strength: *strength,
                concept_map_id: copy_opt_text(concept_map_id),
                valid_from: *valid_from,
                valid_to: *valid_to,
            },
            PropertyBinding::NotationPattern { id, strength, valid_from, valid_to } =>
                PropertyBinding::NotationPattern {
                id: id.clone(),
                strength: *strength,
                valid_from: *valid_from,
                valid_to: *valid_to,
            },
            PropertyBinding::ValueRange { id, valid_from, valid_to } =>
                PropertyBinding::ValueRange {
                id: id.clone(),
                valid_from: *valid_from,
                valid_to: *valid_to,
            },
            PropertyBinding::Glossary { id, valid_from, valid_to } => PropertyBinding::Glossary {
                id: id.clone(),
                valid_from: *valid_from,
                valid_to: *valid_to,
            },
            PropertyBinding::Concept { id, valid_from, valid_to } => PropertyBinding::Concept {
                id: id.clone(),
                valid_from: *valid_from,
                valid_to: *valid_to,
            },
        }
    }
}

impl PropertyBindingHandle {
    /// Equality of handles: same kind and same target id.
    pub fn same_as(&self, other: &PropertyBindingHandle) -> (r: bool)
        ensures
            r == (self@ == other@),
    {
        match (self, other) {
            (PropertyBindingHandle::ValueSet { id: a }, PropertyBindingHandle::ValueSet { id: b })
            | (
                PropertyBindingHandle::CodeSystem { id: a },
                PropertyBindingHandle::CodeSystem { id: b },
            )
            | (
                PropertyBindingHandle::NotationPattern { id: a },
                PropertyBindingHandle::NotationPattern { id: b },
            )
            | (
                PropertyBindingHandle::ValueRange { id: a },
                PropertyBindingHandle::ValueRange { id: b },
            )
            | (
                PropertyBindingHandle::Glossary { id: a },
                PropertyBindingHandle::Glossary { id: b },
            )
            | (
                PropertyBindingHandle::Concept { id: a },
                PropertyBindingHandle::Concept { id: b },
            ) => str_equal(a.as_str(), b.as_str()),
            _ => false,
        }
    }
}

impl PropertyBinding {
    /// Value-set binding with default strength and an open window.
    pub fn value_set(id: String) -> (r: PropertyBinding)
        ensures
            r@ == (BindingModel {
                kind: BindingKind::ValueSet,
                id: id@,
                strength: BindingStrength::Preferred,
                concept_map_id: None,
                valid_from: None,
                valid_to: None,
            }),
    {
        PropertyBinding::ValueSet {
            id,
            strength: BindingStrength::Preferred,
            concept_map_id: None,
            valid_from: None,
            valid_to: None,
        }
    }

    /// Code-system binding with default strength and an open window.
    pub fn code_system(id: String) -> (r: PropertyBinding)
        ensures
            r@ == (BindingModel {
                kind: BindingKind::CodeSystem,
                id: id@,
                strength: BindingStrength::Preferred,
                concept_map_id: None,
                valid_from: None,
                valid_to: None,
            }),
    {
        PropertyBinding::CodeSystem {
            id,
            strength: BindingStrength::Preferred,
            concept_map_id: None,
            valid_from: None,
            valid_to: None,
        }
    }

    /// Notation-pattern binding with default strength and an open window.
    pub fn notation_pattern(id: String) -> (r: PropertyBinding)
        ensures
            r@ == (BindingModel {
                kind: BindingKind::NotationPattern,
                id: id@,
                strength: BindingStrength::Preferred,
                concept_map_id: None,
                valid_from: None,
                valid_to: None,
            }),
    {
        PropertyBinding::NotationPattern {
            id,
            strength: BindingStrength::Preferred,
            valid_from: None,
            valid_to: None,
        }
    }

    /// Value-range binding with an open window.
    pub fn value_range(id: String) -> (r: PropertyBinding)
        ensures
            r@ == (BindingModel {
                kind: BindingKind::ValueRange,
                id: id@,
                strength: BindingStrength::Preferred,
                concept_map_id: None,
                valid_from: None,
                valid_to: None,
            }),
    {
        PropertyBinding::ValueRange { id, valid_from: None, valid_to: None }
    }

    /// Glossary binding with an open window.
    pub fn glossary(id: String) -> (r: PropertyBinding)
        ensures
            r@ == (BindingModel {
                kind: BindingKind::Glossary,
                id: id@,
                strength: BindingStrength::Preferred,
                concept_map_id: None,
                valid_from: None,
                valid_to: None,
            }),
    {
        PropertyBinding::Glossary { id, valid_from: None, valid_to: None }
    }

    /// Concept binding with an open window.
    pub fn concept(id: String) -> (r: PropertyBinding)
        ensures
            r@ == (BindingModel {
                kind: BindingKind::Concept,
                id: id@,
                strength: BindingStrength::Preferred,
                concept_map_id: None,
                valid_from: None,
                valid_to: None,
            }),
    {
        PropertyBinding::Concept { id, valid_from: None, valid_to: None }
    }

    /// Replace the strength; kinds without a strength are returned as is.
    pub fn with_strength(self, strength: BindingStrength) -> (r: PropertyBinding)
        ensures
            kind_has_strength(self@.kind) ==> r@ == (BindingModel { strength, ..self@ }),
            !kind_has_strength(self@.kind) ==> r@ == self@,
    {
        match self {
            PropertyBinding::ValueSet { id, concept_map_id, valid_from, valid_to, .. } =>
                PropertyBinding::ValueSet { id, strength, concept_map_id, valid_from, valid_to },
            PropertyBinding::CodeSystem { id, concept_map_id, valid_from, valid_to, .. } =>
                PropertyBinding::CodeSystem { id, strength, concept_map_id, valid_from, valid_to },
            PropertyBinding::NotationPattern { id, valid_from, valid_to, .. } =>
                PropertyBinding::NotationPattern { id, strength, valid_from, valid_to },
            other => other,
        }
    }

    /// Set the inclusive start of the validity window.
    pub fn with_valid_from(self, t: i64) -> (r: PropertyBinding)
        ensures
            r@ == (BindingModel { valid_from: Some(t), ..self@ }),
    {
        self.replace_window(Some(t), None)
    }

    /// Set the exclusive end of the validity window.
    pub fn with_valid_to(self, t: i64) -> (r: PropertyBinding)
        ensures
            r@ == (BindingModel { valid_to: Some(t), ..self@ }),
    {
        self.replace_window(None, Some(t))
    }

    fn replace_window(self, new_from: Option<i64>, new_to: Option<i64>) -> (r: PropertyBinding)
        ensures
            r@ == (BindingModel {
                valid_from: override_bound(new_from, self@.valid_from),
                valid_to: override_bound(new_to, self@.valid_to),
                ..self@
            }),
    {
        match self {
            PropertyBinding::ValueSet { id, strength, concept_map_id, valid_from, valid_to } =>
                PropertyBinding::ValueSet {
                id,
                strength,
                concept_map_id,
                valid_from: pick_bound(new_from, valid_from),
                valid_to: pick_bound(new_to, valid_to),
            },
            PropertyBinding::CodeSystem { id, strength, concept_map_id, valid_from, valid_to } =>
                PropertyBinding::CodeSystem {
                id,
                strength,
                concept_map_id,
                valid_from: pick_bound(new_from, valid_from),
                valid_to: pick_bound(new_to, valid_to),
            },
            PropertyBinding::NotationPattern { id, strength, valid_from, valid_to } =>
                PropertyBinding::NotationPattern {
                id,
                strength,
                valid_from: pick_bound(new_from, valid_from),
                valid_to: pick_bound(new_to, valid_to),
            },
            PropertyBinding::ValueRange { id, valid_from, valid_to } =>
                PropertyBinding::ValueRange {
                id,
                valid_from: pick_bound(new_from, valid_from),
                valid_to: pick_bound(new_to, valid_to),
            },
            PropertyBinding::Glossary { id, valid_from, valid_to } => PropertyBinding::Glossary {
                id,
                valid_from: pick_bound(new_from, valid_from),
                valid_to: pick_bound(new_to, valid_to),
            },
            PropertyBinding::Concept { id, valid_from, valid_to } => PropertyBinding::Concept {
                id,
                valid_from: pick_bound(new_from, valid_from),
                valid_to: pick_bound(new_to, valid_to),
            },
        }
    }

    /// Attach a concept map; kinds without one are returned as is.
    pub fn with_concept_map(self, cm: String) -> (r: PropertyBinding)
        ensures
            kind_has_concept_map(self@.kind) ==> r@ == (BindingModel {
                concept_map_id: Some(cm@),
                ..self@
            }),
            !kind_has_concept_map(self@.kind) ==> r@ == self@,
    {
        match self {
            PropertyBinding::ValueSet { id, strength, valid_from, valid_to, .. } =>
                PropertyBinding::ValueSet {
                id,
                strength,
                concept_map_id: Some(cm),
                valid_from,
                valid_to,
            },
            PropertyBinding::CodeSystem { id, strength, valid_from, valid_to, .. } =>
                PropertyBinding::CodeSystem {
                id,
                strength,
                concept_map_id: Some(cm),
                valid_from,
                valid_to,
            },
            other => other,
        }
    }

    /// The `(kind, id)` identity of the binding.
    pub fn handle(&self) -> (r: PropertyBindingHandle)
        ensures
            r@ == handle_of(self@),
    {
        match self {
            PropertyBinding::ValueSet { id, .. } => PropertyBindingHandle::ValueSet {
                id: id.clone(),
            },
            PropertyBinding::CodeSystem { id, .. } => PropertyBindingHandle::CodeSystem {
                id: id.clone(),
            },
            PropertyBinding::NotationPattern { id, .. } => PropertyBindingHandle::NotationPattern {
                id: id.clone(),
            },
            PropertyBinding::ValueRange { id, .. } => PropertyBindingHandle::ValueRange {
                id: id.clone(),
            },
            PropertyBinding::Glossary { id, .. } => PropertyBindingHandle::Glossary {
                id: id.clone(),
            },
            PropertyBinding::Concept { id, .. } => PropertyBindingHandle::Concept {
                id: id.clone(),
            },
        }
    }

    /// Whether the validity window `[valid_from, valid_to)` covers `at`.
    pub fn covers(&self, at: i64) -> (r: bool)
        ensures
            r == window_covers(self@.valid_from, self@.valid_to, at),
    {
        let (from, to) = self.window();
        if let Some(start) = from {
            if at < start {
                return false;
            }
        }
        if let Some(end) = to {
            if at >= end {
                return false;
            }
        }
        true
    }

    /// `(valid_from, valid_to)` of the binding regardless of variant.
    pub fn window(&self) -> (r: (Option<i64>, Option<i64>))
        ensures
            r == (self@.valid_from, self@.valid_to),
    {
        match self {
            PropertyBinding::ValueSet { valid_from, valid_to, .. }
            | PropertyBinding::CodeSystem { valid_from, valid_to, .. }
            | PropertyBinding::NotationPattern { valid_from, valid_to, .. }
            | PropertyBinding::ValueRange { valid_from, valid_to, .. }
            | PropertyBinding::Glossary { valid_from, valid_to, .. }
            | PropertyBinding::Concept { valid_from, valid_to, .. } => (*valid_from, *valid_to),
        }
    }

    /// The strength; kinds without one report `Preferred`.
    pub fn strength(&self) -> (r: BindingStrength)
        ensures
            r == self@.strength,
    {
        match self {
            PropertyBinding::ValueSet { strength, .. }
            | PropertyBinding::CodeSystem { strength, .. }
            | PropertyBinding::NotationPattern { strength, .. } => *strength,
            PropertyBinding::ValueRange { .. }
            | PropertyBinding::Glossary { .. }
            | PropertyBinding::Concept { .. } => {
                BindingStrength::Preferred
            },
        }
    }

    /// The optional concept map (only value-set and code-system bindings).
    pub fn concept_map_id(&self) -> (r: Option<&String>)
        ensures
            match r {
                Some(s) => self@.concept_map_id == Some(s@),
                None => self@.concept_map_id is None,
            },
    {
        match self {
            PropertyBinding::ValueSet { concept_map_id, .. }
            | PropertyBinding::CodeSystem { concept_map_id, .. } => concept_map_id.as_ref(),
            _ => None,
        }
    }
}

fn pick_bound(new: Option<i64>, old: Option<i64>) -> (r: Option<i64>)
    ensures
        r == override_bound(new, old),
{
    match new {
        Some(t) => Some(t),
        None => old,
    }
}

/// Setting a bound then reading the window gives the bound back, and a
/// binding covers exactly the instants of its half-open window: the
/// start is covered, the end is not.
pub proof fn lemma_window_is_half_open(from: i64, to: i64)
    requires
        from < to,
    ensures
        window_covers(Some(from), Some(to), from),
        !window_covers(Some(from), Some(to), to),
        forall|t: i64| #[trigger] window_covers(Some(from), Some(to), t) <==> from <= t < to,
{
}

} // verus!
