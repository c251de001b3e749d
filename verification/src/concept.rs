//! Business concepts: the semantic identity that glossary terms
//! lexicalize and that node and edge types implement.

use vstd::prelude::*;

use crate::glossary::{
    copy_opt_realisation, opt_realisation, LifecycleModel, RealisationModel, TermLifecycle,
    TermRealisation,
};
use crate::model::{copy_opt_text, copy_texts, copy_vec, models, opt_text, texts, DeepCopy, Keyed};
use crate::rule::{Bilingual, BilingualModel};

verus! {

/// Editorial trail of a concept. Instants are seconds since the Unix
/// epoch.
#[derive(Debug, Clone, PartialEq, Eq, Default)]
pub struct ConceptGovernance {
    pub author: Option<String>,
    pub last_edited_at: Option<i64>,
}

/// A business concept: its canonical term, alias terms, place in the
/// concept hierarchy, optional executable realisation, lifecycle and
/// validity window `[valid_from, valid_to)`.
#[derive(Debug, Clone, PartialEq, Eq)]
pub struct ConceptDef {
    pub id: String,
    pub canonical_term_id: String,
    pub alias_term_ids: Vec<String>,
    pub broader: Option<String>,
    pub description: Bilingual,
    pub examples: Vec<Bilingual>,
    pub category: Option<String>,
    pub realisation: Option<TermRealisation>,
    pub lifecycle: TermLifecycle,
    pub replaced_by: Option<String>,
    pub valid_from: Option<i64>,
    pub valid_to: Option<i64>,
    pub governance: ConceptGovernance,
}

/// The segment a realisation names, when it is segment-shaped.
pub open spec fn realised_segment(r: Option<TermRealisation>) -> Option<Seq<char>> {
    match r {
        Some(TermRealisation::Segment { segment_id }) => Some(segment_id@),
        _ => None,
    }
}

/// The function a realisation names, when it is function-shaped.
pub open spec fn realised_function(r: Option<TermRealisation>) -> Option<Seq<char>> {
    match r {
        Some(TermRealisation::Function { function_id }) => Some(function_id@),
        _ => None,
    }
}

impl ConceptDef {
    /// The segment realising the concept, when it is realised by one.
    pub fn segment_id(&self) -> (r: Option<&String>)
        ensures
            match r {
                Some(s) => realised_segment(self.realisation) == Some(s@),
                None => realised_segment(self.realisation) is None,
            },
    {
        match &self.realisation {
            Some(TermRealisation::Segment { segment_id }) => Some(segment_id),
            _ => None,
        }
    }

    /// The function realising the concept, when it is realised by one.
    pub fn function_id(&self) -> (r: Option<&String>)
        ensures
            match r {
                Some(s) => realised_function(self.realisation) == Some(s@),
                None => realised_function(self.realisation) is None,
            },
    {
        match &self.realisation {
            Some(TermRealisation::Function { function_id }) => Some(function_id),
            _ => None,
        }
    }

    /// Every term that lexicalizes the concept: the canonical term first,
    /// then the aliases in registration order.
    pub fn lexicalization_term_ids(&self) -> (r: Vec<String>)
        ensures
            texts(r@) == seq![self.canonical_term_id@] + texts(self.alias_term_ids@),
    {
        let mut out: Vec<String> = Vec::new();
        out.push(self.canonical_term_id.clone());
        let mut i: usize = 0;
        while i < self.alias_term_ids.len()
            invariant
                i <= self.alias_term_ids.len(),
                texts(out@) == seq![self.canonical_term_id@] + texts(self.alias_term_ids@.take(i as int)),
            decreases self.alias_term_ids.len() - i,
        {
            let ghost before = out@;
            let id = self.alias_term_ids[i].clone();
            out.push(id);
            assert(texts(out@) =~= texts(before).push(self.alias_term_ids@[i as int]@));
            assert(texts(self.alias_term_ids@.take(i + 1)) =~= texts(self.alias_term_ids@.take(i as int)).push(
                self.alias_term_ids@[i as int]@,
            ));
            i = i + 1;
        }
        assert(self.alias_term_ids@.take(self.alias_term_ids.len() as int) =~= self.alias_term_ids@);
        out
    }
}

/// Model of a [`ConceptGovernance`].
pub struct ConceptGovernanceModel {
    pub author: Option<Seq<char>>,
    pub last_edited_at: Option<i64>,
}

impl View for ConceptGovernance {
    type V = ConceptGovernanceModel;

    open spec fn view(&self) -> ConceptGovernanceModel {
        ConceptGovernanceModel { author: opt_text(self.author), last_edited_at: self.last_edited_at }
    }
}

impl DeepCopy for ConceptGovernance {
    fn deep_copy(&self) -> (r: ConceptGovernance) {
        ConceptGovernance { author: copy_opt_text(&self.author), last_edited_at: self.last_edited_at }
    }
}

/// Model of a [`ConceptDef`].
pub struct ConceptModel {
    pub id: Seq<char>,
    pub canonical_term_id: Seq<char>,
    pub alias_term_ids: Seq<Seq<char>>,
    pub broader: Option<Seq<char>>,
    pub description: BilingualModel,
    pub examples: Seq<BilingualModel>,
    pub category: Option<Seq<char>>,
    pub realisation: Option<RealisationModel>,
    pub lifecycle: LifecycleModel,
    pub replaced_by: Option<Seq<char>>,
    pub valid_from: Option<i64>,
    pub valid_to: Option<i64>,
    pub governance: ConceptGovernanceModel,
}

impl View for ConceptDef {
    type V = ConceptModel;

    open spec fn view(&self) -> ConceptModel {
        ConceptModel {
            id: self.id@,
            canonical_term_id: self.canonical_term_id@,
            alias_term_ids: texts(self.alias_term_ids@),
            broader: opt_text(self.broader),
            description: self.description@,
            examples: models(self.examples@),
            category: opt_text(self.category),
            realisation: opt_realisation(self.realisation),
            lifecycle: self.lifecycle@,
            replaced_by: opt_text(self.replaced_by),
            valid_from: self.valid_from,
            valid_to: self.valid_to,
            governance: self.governance@,
        }
    }
}

impl DeepCopy for ConceptDef {
    fn deep_copy(&self) -> (r: ConceptDef) {
        ConceptDef {
            id: self.id.clone(),
            canonical_term_id: self.canonical_term_id.clone(),
            alias_term_ids: copy_texts(&self.alias_term_ids),
            broader: copy_opt_text(&self.broader),
            description: self.description.deep_copy(),
            examples: copy_vec(&self.examples),
            category: copy_opt_text(&self.category),
            realisation: copy_opt_realisation(&self.realisation),
            lifecycle: self.lifecycle.deep_copy(),
            replaced_by: copy_opt_text(&self.replaced_by),
            valid_from: self.valid_from,
            valid_to: self.valid_to,
            governance: self.governance.deep_copy(),
        }
    }
}

impl Keyed for ConceptDef {
    open spec fn key_of(m: ConceptModel) -> Seq<char> {
        m.id
    }

    fn key(&self) -> (r: &String) {
        &self.id
    }
}

} // verus!
