//! Glossary vocabulary: term classifications, relations between terms,
//! where a term came from, and taxonomy trees over terms.

use vstd::prelude::*;

use crate::model::{copy_opt_text, copy_vec, models, opt_text, texts, DeepCopy, Keyed};
use vstd::string::StrSliceExecFns;
use crate::registry::{trim_text, trimmed};
use crate::rule::{Bilingual, BilingualModel};

verus! {

/// Part of speech of a term.
#[derive(Debug, Clone, Copy, PartialEq, Eq, Hash, Default, Structural)]
pub enum TermPos {
    #[default]
    Auto,
    Noun,
    ProperNoun,
    Verb,
    Adjective,
    Foreign,
    Compound,
}

/// How a term is realised in the ontology.
#[derive(Debug, Clone, PartialEq, Eq)]
pub enum TermRealisation {
    Segment { segment_id: String },
    Function { function_id: String },
    CrossEntity { predicate: String },
}

/// SKOS-style relation kinds between terms.
#[derive(Debug, Clone, Copy, PartialEq, Eq, Structural)]
pub enum TermRelationKind {
    Broader,
    Narrower,
    Related,
    SeeAlso,
    ExactMatch,
    CloseMatch,
}

/// A relation from one term to another.
#[derive(Debug, Clone, PartialEq, Eq)]
pub struct TermRelation {
    pub kind: TermRelationKind,
    pub target: String,
}

/// Where a term came from.
#[derive(Debug, Clone, PartialEq, Eq, Default)]
pub enum TermOrigin {
    #[default]
    Manual,
    DerivedFromColumn { table: String, column: String },
    ImportedFrom { catalog: String, external_id: Option<String> },
}

/// Authorship and editorial trail of a term. Instants are seconds since
/// the Unix epoch.
#[derive(Debug, Clone, PartialEq, Eq, Default)]
pub struct TermGovernance {
    pub origin: TermOrigin,
    pub created_by: Option<String>,
    pub created_at: Option<i64>,
    pub scope_notes: Vec<Bilingual>,
    pub editorial_notes: Vec<Bilingual>,
    pub change_notes: Vec<TermChangeNote>,
}

/// One entry of a term's append-only change log.
#[derive(Debug, Clone, PartialEq, Eq)]
pub struct TermChangeNote {
    pub at: i64,
    pub by: Option<String>,
    pub note: Bilingual,
    pub provenance: Option<String>,
}

/// Lifecycle of a term: in use, deprecated (with its successor, if
/// named) or retired.
#[derive(Debug, Clone, PartialEq, Eq, Default)]
pub enum TermLifecycle {
    #[default]
    Active,
    Deprecated { replaced_by: Option<String>, deprecated_at: i64 },
    Retired { retired_at: i64 },
}

/// A glossary term: its labels, definition, relations, validity window
/// `[valid_from, valid_to)` and lifecycle. Labels carry an English default
/// and an optional Korean rendering (empty when absent).
#[derive(Debug, Clone, PartialEq, Eq)]
pub struct GlossaryTermDef {
    pub id: String,
    pub term: Bilingual,
    pub display_name: Bilingual,
    pub description: Bilingual,
    pub examples: Vec<Bilingual>,
    pub category: Option<String>,
    pub aliases: Vec<Bilingual>,
    pub related_terms: Vec<TermRelation>,
    pub governance: TermGovernance,
    pub valid_from: Option<i64>,
    pub valid_to: Option<i64>,
    pub lifecycle: TermLifecycle,
    pub concept_id: Option<String>,
    pub term_pos: TermPos,
}

/// A named tree view over glossary terms.
#[derive(Debug)]
pub struct TaxonomyDef {
    pub id: String,
    pub name: String,
    pub description: Bilingual,
    pub root: TaxonomyNode,
}

/// Unicode lower-case of a text, as `str::to_lowercase` computes it.
pub uninterp spec fn lowercased(s: Seq<char>) -> Seq<char>;

/// `str::to_lowercase`: the text mapped to lower case. The result is
/// named by [`lowercased`]; the case mapping itself is left unsaid.
#[verifier::external_body]
fn lowercase_text(s: &str) -> (r: String)
    ensures
        r@ == lowercased(s@),
{
    s.to_lowercase()
}

/// A label answers to a lower-cased needle: its default text does, or its
/// translation, when there is one, does, both compared in lower case.
pub open spec fn label_answers(t: BilingualModel, needle: Seq<char>) -> bool {
    lowercased(t.en) == needle || (t.ko.len() > 0 && lowercased(t.ko) == needle)
}

/// The needle a candidate text is compared by: trimmed, then lower-cased.
pub open spec fn needle_of(candidate: Seq<char>) -> Seq<char> {
    lowercased(trimmed(candidate))
}

/// A term matches a candidate when the candidate's needle is not empty
/// and the term's label, its display name or one of its aliases answers
/// to it.
pub open spec fn term_matches(t: GlossaryTermDef, candidate: Seq<char>) -> bool {
    let needle = needle_of(candidate);
    needle.len() > 0 && (label_answers(t.term@, needle) || label_answers(t.display_name@, needle)
        || exists|k: int| 0 <= k < t.aliases@.len() && label_answers(#[trigger] t.aliases@[k]@, needle))
}

/// A term is valid at `at` when `at` lies in `[valid_from, valid_to)`,
/// an absent bound leaving that side open.
pub open spec fn valid_at(from: Option<i64>, to: Option<i64>, at: i64) -> bool {
    (match from { Some(f) => f <= at, None => true }) && (match to { Some(t) => at < t, None => true })
}

/// The successor a lifecycle names: that of a deprecation, else none.
pub open spec fn successor(l: TermLifecycle) -> Option<Seq<char>> {
    match l {
        TermLifecycle::Deprecated { replaced_by, .. } => opt_text(replaced_by),
        _ => None,
    }
}

fn locales_contain_ci(t: &Bilingual, needle: &String) -> (r: bool)
    ensures
        r == label_answers(t@, needle@),
{
    let en = lowercase_text(t.en.as_str());
    if crate::text::str_equal(en.as_str(), needle.as_str()) {
        return true;
    }
    if t.ko.as_str().unicode_len() == 0 {
        return false;
    }
    let ko = lowercase_text(t.ko.as_str());
    crate::text::str_equal(ko.as_str(), needle.as_str())
}

impl GlossaryTermDef {
    /// Whether `candidate`, trimmed and lower-cased, names this term: its
    /// label, display name or an alias, in either language.
    pub fn matches_text(&self, candidate: &str) -> (r: bool)
        ensures
            r == term_matches(*self, candidate@),
    {
        let needle = lowercase_text(trim_text(candidate));
        if needle.as_str().unicode_len() == 0 {
            return false;
        }
        if locales_contain_ci(&self.term, &needle) || locales_contain_ci(&self.display_name, &needle) {
            return true;
        }
        let mut k: usize = 0;
        while k < self.aliases.len()
            invariant
                k <= self.aliases.len(),
                needle@ == needle_of(candidate@),
                needle@.len() > 0,
                !label_answers(self.term@, needle@),
                !label_answers(self.display_name@, needle@),
                forall|j: int| 0 <= j < k ==> !label_answers(#[trigger] self.aliases@[j]@, needle@),
            decreases self.aliases.len() - k,
        {
            if locales_contain_ci(&self.aliases[k], &needle) {
                assert(label_answers(self.aliases@[k as int]@, needle@));
                return true;
            }
            k = k + 1;
        }
        false
    }

    /// Whether the term is in active use.
    pub fn is_active(&self) -> (r: bool)
        ensures
            r == (self.lifecycle is Active),
    {
        match self.lifecycle {
            TermLifecycle::Active => true,
            _ => false,
        }
    }

    /// Whether `at` lies inside the term's validity window.
    pub fn is_valid_at(&self, at: i64) -> (r: bool)
        ensures
            r == valid_at(self.valid_from, self.valid_to, at),
    {
        if let Some(from) = self.valid_from {
            if at < from {
                return false;
            }
        }
        if let Some(to) = self.valid_to {
            if at >= to {
                return false;
            }
        }
        true
    }

    /// The successor term of a deprecated term, if it names one.
    pub fn replaced_by(&self) -> (r: Option<&String>)
        ensures
            match r {
                Some(s) => successor(self.lifecycle) == Some(s@),
                None => successor(self.lifecycle) is None,
            },
    {
        match &self.lifecycle {
            TermLifecycle::Deprecated { replaced_by, .. } => match replaced_by {
                Some(s) => Some(s),
                None => None,
            },
            _ => None,
        }
    }
}

/// Matching looks at the candidate only through its trimmed, lower-cased
/// form: two candidates with the same such form match the same terms.
pub proof fn lemma_matching_ignores_case_and_padding(t: GlossaryTermDef, a: Seq<char>, b: Seq<char>)
    requires
        lowercased(trimmed(a)) == lowercased(trimmed(b)),
    ensures
        term_matches(t, a) == term_matches(t, b),
{
}

/// One node of a taxonomy tree: a term and its children.
#[derive(Debug)]
pub struct TaxonomyNode {
    pub term_id: String,
    pub children: Vec<TaxonomyNode>,
}

/// Term ids of a tree in pre-order: the node, then each child's tree.
pub open spec fn pre_order(n: TaxonomyNode) -> Seq<Seq<char>>
    decreases n,
{
    seq![n.term_id@] + pre_order_all(n.children@)
}

/// Pre-order of a forest, tree by tree.
pub open spec fn pre_order_all(ns: Seq<TaxonomyNode>) -> Seq<Seq<char>>
    decreases ns,
{
    if ns.len() == 0 {
        Seq::empty()
    } else {
        pre_order_all(ns.subrange(0, ns.len() - 1)) + pre_order(ns[ns.len() - 1])
    }
}

impl TaxonomyNode {
    /// Every term id of the tree, in pre-order.
    pub fn walk(&self) -> (r: Vec<String>)
        ensures
            texts(r@) == pre_order(*self),
        decreases self,
    {
        let mut out: Vec<String> = Vec::new();
        out.push(self.term_id.clone());
        let ghost cs = self.children@;
        let mut i: usize = 0;
        while i < self.children.len()
            invariant
                i <= self.children.len(),
                cs == self.children@,
                texts(out@) == seq![self.term_id@] + pre_order_all(cs.subrange(0, i as int)),
            decreases self.children.len() - i,
        {
            proof {
                assert(decreases_to!(*self => self.children));
                assert(decreases_to!(self.children => self.children@));
                assert(decreases_to!(self.children@ => self.children@[i as int]));
                let next = cs.subrange(0, i + 1);
                assert(next.subrange(0, i as int) =~= cs.subrange(0, i as int));
                assert(next[i as int] == cs[i as int]);
            }
            let mut sub = self.children[i].walk();
            let ghost before = out@;
            let ghost added = sub@;
            out.append(&mut sub);
            assert(texts(out@) =~= texts(before) + texts(added));
            i = i + 1;
        }
        assert(cs.subrange(0, cs.len() as int) =~= cs);
        out
    }

    /// Number of terms in the tree, the node included.
    pub fn size(&self) -> (r: usize)
        ensures
            r == pre_order(*self).len(),
    {
        self.walk().len()
    }
}

/// Model of a [`TermRealisation`].
pub enum RealisationModel {
    Segment { segment_id: Seq<char> },
    Function { function_id: Seq<char> },
    CrossEntity { predicate: Seq<char> },
}

impl View for TermRealisation {
    type V = RealisationModel;

    open spec fn view(&self) -> RealisationModel {
        match self {
            TermRealisation::Segment { segment_id } => RealisationModel::Segment { segment_id: segment_id@ },
            TermRealisation::Function { function_id } => RealisationModel::Function { function_id: function_id@ },
            TermRealisation::CrossEntity { predicate } => RealisationModel::CrossEntity { predicate: predicate@ },
        }
    }
}

impl DeepCopy for TermRealisation {
    fn deep_copy(&self) -> (r: TermRealisation) {
        match self {
            TermRealisation::Segment { segment_id } => TermRealisation::Segment { segment_id: segment_id.clone() },
            TermRealisation::Function { function_id } => TermRealisation::Function { function_id: function_id.clone() },
            TermRealisation::CrossEntity { predicate } => TermRealisation::CrossEntity { predicate: predicate.clone() },
        }
    }
}

/// Model of an optional realisation.
pub open spec fn opt_realisation(r: Option<TermRealisation>) -> Option<RealisationModel> {
    match r {
        Some(x) => Some(x@),
        None => None,
    }
}

/// Copy an optional realisation.
pub fn copy_opt_realisation(r: &Option<TermRealisation>) -> (c: Option<TermRealisation>)
    ensures
        opt_realisation(c) == opt_realisation(*r),
{
    match r {
        Some(x) => Some(x.deep_copy()),
        None => None,
    }
}

/// Model of a [`TermLifecycle`].
pub enum LifecycleModel {
    Active,
    Deprecated { replaced_by: Option<Seq<char>>, deprecated_at: i64 },
    Retired { retired_at: i64 },
}

impl View for TermLifecycle {
    type V = LifecycleModel;

    open spec fn view(&self) -> LifecycleModel {
        match self {
            TermLifecycle::Active => LifecycleModel::Active,
            TermLifecycle::Deprecated { replaced_by, deprecated_at } => LifecycleModel::Deprecated {
                replaced_by: opt_text(*replaced_by),
                deprecated_at: *deprecated_at,
            },
            TermLifecycle::Retired { retired_at } => LifecycleModel::Retired { retired_at: *retired_at },
        }
    }
}

impl DeepCopy for TermLifecycle {
    fn deep_copy(&self) -> (r: TermLifecycle) {
        match self {
            TermLifecycle::Active => TermLifecycle::Active,
            TermLifecycle::Deprecated { replaced_by, deprecated_at } => TermLifecycle::Deprecated {
                replaced_by: copy_opt_text(replaced_by),
                deprecated_at: *deprecated_at,
            },
            TermLifecycle::Retired { retired_at } => TermLifecycle::Retired { retired_at: *retired_at },
        }
    }
}

/// Model of a [`TermRelation`].
pub struct RelationModel {
    pub kind: TermRelationKind,
    pub target: Seq<char>,
}

impl View for TermRelation {
    type V = RelationModel;

    open spec fn view(&self) -> RelationModel {
        RelationModel { kind: self.kind, target: self.target@ }
    }
}

impl DeepCopy for TermRelation {
    fn deep_copy(&self) -> (r: TermRelation) {
        TermRelation { kind: self.kind, target: self.target.clone() }
    }
}

/// Model of a [`TermOrigin`].
pub enum OriginModel {
    Manual,
    DerivedFromColumn { table: Seq<char>, column: Seq<char> },
    ImportedFrom { catalog: Seq<char>, external_id: Option<Seq<char>> },
}

impl View for TermOrigin {
    type V = OriginModel;

    open spec fn view(&self) -> OriginModel {
        match self {
            TermOrigin::Manual => OriginModel::Manual,
            TermOrigin::DerivedFromColumn { table, column } => OriginModel::DerivedFromColumn {
                table: table@,
                column: column@,
            },
            TermOrigin::ImportedFrom { catalog, external_id } => OriginModel::ImportedFrom {
                catalog: catalog@,
                external_id: opt_text(*external_id),
            },
        }
    }
}

impl DeepCopy for TermOrigin {
    fn deep_copy(&self) -> (r: TermOrigin) {
        match self {
            TermOrigin::Manual => TermOrigin::Manual,
            TermOrigin::DerivedFromColumn { table, column } => TermOrigin::DerivedFromColumn {
                table: table.clone(),
                column: column.clone(),
            },
            TermOrigin::ImportedFrom { catalog, external_id } => TermOrigin::ImportedFrom {
                catalog: catalog.clone(),
                external_id: copy_opt_text(external_id),
            },
        }
    }
}

/// Model of a [`TermChangeNote`].
pub struct ChangeNoteModel {
    pub at: i64,
    pub by: Option<Seq<char>>,
    pub note: BilingualModel,
    pub provenance: Option<Seq<char>>,
}

impl View for TermChangeNote {
    type V = ChangeNoteModel;

    open spec fn view(&self) -> ChangeNoteModel {
        ChangeNoteModel {
            at: self.at,
            by: opt_text(self.by),
            note: self.note@,
            provenance: opt_text(self.provenance),
        }
    }
}

impl DeepCopy for TermChangeNote {
    fn deep_copy(&self) -> (r: TermChangeNote) {
        TermChangeNote {
            at: self.at,
            by: copy_opt_text(&self.by),
            note: self.note.deep_copy(),
            provenance: copy_opt_text(&self.provenance),
        }
    }
}

/// Model of a [`TermGovernance`].
pub struct TermGovernanceModel {
    pub origin: OriginModel,
    pub created_by: Option<Seq<char>>,
    pub created_at: Option<i64>,
    pub scope_notes: Seq<BilingualModel>,
    pub editorial_notes: Seq<BilingualModel>,
    pub change_notes: Seq<ChangeNoteModel>,
}

impl View for TermGovernance {
    type V = TermGovernanceModel;

    open spec fn view(&self) -> TermGovernanceModel {
        TermGovernanceModel {
            origin: self.origin@,
            created_by: opt_text(self.created_by),
            created_at: self.created_at,
            scope_notes: models(self.scope_notes@),
            editorial_notes: models(self.editorial_notes@),
            change_notes: models(self.change_notes@),
        }
    }
}

impl DeepCopy for TermGovernance {
    fn deep_copy(&self) -> (r: TermGovernance) {
        TermGovernance {
            origin: self.origin.deep_copy(),
            created_by: copy_opt_text(&self.created_by),
            created_at: self.created_at,
            scope_notes: copy_vec(&self.scope_notes),
            editorial_notes: copy_vec(&self.editorial_notes),
            change_notes: copy_vec(&self.change_notes),
        }
    }
}

/// Model of a [`GlossaryTermDef`].
pub struct GlossaryTermModel {
    pub id: Seq<char>,
    pub term: BilingualModel,
    pub display_name: BilingualModel,
    pub description: BilingualModel,
    pub examples: Seq<BilingualModel>,
    pub category: Option<Seq<char>>,
    pub aliases: Seq<BilingualModel>,
    pub related_terms: Seq<RelationModel>,
    pub governance: TermGovernanceModel,
    pub valid_from: Option<i64>,
    pub valid_to: Option<i64>,
    pub lifecycle: LifecycleModel,
    pub concept_id: Option<Seq<char>>,
    pub term_pos: TermPos,
}

impl View for GlossaryTermDef {
    type V = GlossaryTermModel;

    open spec fn view(&self) -> GlossaryTermModel {
        GlossaryTermModel {
            id: self.id@,
            term: self.term@,
            display_name: self.display_name@,
            description: self.description@,
            examples: models(self.examples@),
            category: opt_text(self.category),
            aliases: models(self.aliases@),
            related_terms: models(self.related_terms@),
            governance: self.governance@,
            valid_from: self.valid_from,
            valid_to: self.valid_to,
            lifecycle: self.lifecycle@,
            concept_id: opt_text(self.concept_id),
            term_pos: self.term_pos,
        }
    }
}

impl DeepCopy for GlossaryTermDef {
    fn deep_copy(&self) -> (r: GlossaryTermDef) {
        GlossaryTermDef {
            id: self.id.clone(),
            term: self.term.deep_copy(),
            display_name: self.display_name.deep_copy(),
            description: self.description.deep_copy(),
            examples: copy_vec(&self.examples),
            category: copy_opt_text(&self.category),
            aliases: copy_vec(&self.aliases),
            related_terms: copy_vec(&self.related_terms),
            governance: self.governance.deep_copy(),
            valid_from: self.valid_from,
            valid_to: self.valid_to,
            lifecycle: self.lifecycle.deep_copy(),
            concept_id: copy_opt_text(&self.concept_id),
            term_pos: self.term_pos,
        }
    }
}

impl Keyed for GlossaryTermDef {
    open spec fn key_of(m: GlossaryTermModel) -> Seq<char> {
        m.id
    }

    fn key(&self) -> (r: &String) {
        &self.id
    }
}

} // verus!
