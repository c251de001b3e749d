//! Registries an ontology's properties and rules point into: code
//! systems and their codes, value sets composed from them, concept maps
//! between code systems, and the ids of concepts, notation patterns and
//! value-range sets.

use vstd::prelude::*;

use crate::model::{copy_opt_text, copy_texts, copy_vec, models, opt_text, texts, DeepCopy, Keyed};
use crate::concept::{ConceptDef, ConceptModel};
use crate::glossary::{GlossaryTermDef, GlossaryTermModel};
use crate::rule::{Bilingual, BilingualModel};
use crate::text::str_equal;
use vstd::string::StrSliceExecFns;

verus! {

/// Governance kind of a code system.
#[derive(Debug, Clone, PartialEq, Eq)]
pub enum CodeSystemKind {
    /// Business codes the tenant edits.
    Internal,
    /// Read-only mirror of an external registry.
    External { source_ref: String },
}

/// Model of a [`CodeSystemKind`]: the external source, if any.
pub open spec fn kind_model(k: CodeSystemKind) -> Option<Seq<char>> {
    match k {
        CodeSystemKind::Internal => None,
        CodeSystemKind::External { source_ref } => Some(source_ref@),
    }
}

/// One code of a code system. Instants are seconds since the Unix epoch.
#[derive(Debug, Clone, PartialEq, Eq, Default)]
pub struct CodedValue {
    pub id: String,
    pub code: String,
    pub display: Bilingual,
    pub aliases: Vec<String>,
    pub broader_id: Option<String>,
    pub valid_from: Option<i64>,
    pub valid_to: Option<i64>,
    pub deprecated_at: Option<i64>,
    pub replaced_by_id: Option<String>,
}

/// Model of a [`CodedValue`].
pub struct CodedValueModel {
    pub id: Seq<char>,
    pub code: Seq<char>,
    pub display: BilingualModel,
    pub aliases: Seq<Seq<char>>,
    pub broader_id: Option<Seq<char>>,
    pub valid_from: Option<i64>,
    pub valid_to: Option<i64>,
    pub deprecated_at: Option<i64>,
    pub replaced_by_id: Option<Seq<char>>,
}

impl View for CodedValue {
    type V = CodedValueModel;

    open spec fn view(&self) -> CodedValueModel {
        CodedValueModel {
            id: self.id@,
            code: self.code@,
            display: self.display@,
            aliases: texts(self.aliases@),
            broader_id: opt_text(self.broader_id),
            valid_from: self.valid_from,
            valid_to: self.valid_to,
            deprecated_at: self.deprecated_at,
            replaced_by_id: opt_text(self.replaced_by_id),
        }
    }
}

impl DeepCopy for CodedValue {
    fn deep_copy(&self) -> (r: CodedValue) {
        CodedValue {
            id: self.id.clone(),
            code: self.code.clone(),
            display: self.display.deep_copy(),
            aliases: copy_texts(&self.aliases),
            broader_id: copy_opt_text(&self.broader_id),
            valid_from: self.valid_from,
            valid_to: self.valid_to,
            deprecated_at: self.deprecated_at,
            replaced_by_id: copy_opt_text(&self.replaced_by_id),
        }
    }
}

/// A code is active at `t`: not deprecated by then, its validity window
/// open at `t` (from inclusive, to exclusive).
pub open spec fn active_at(c: CodedValueModel, t: i64) -> bool {
    &&& !(c.deprecated_at matches Some(d) && d <= t)
    &&& !(c.valid_from matches Some(f) && t < f)
    &&& !(c.valid_to matches Some(u) && t >= u)
}

impl CodedValue {
    /// Whether the code is active at instant `t`: not deprecated at or
    /// before `t`, and `t` inside its validity window.
    pub fn is_active_at(&self, t: i64) -> (r: bool)
        ensures
            r == active_at(self@, t),
    {
        if let Some(dep) = self.deprecated_at {
            if dep <= t {
                return false;
            }
        }
        if let Some(from) = self.valid_from {
            if t < from {
                return false;
            }
        }
        if let Some(to) = self.valid_to {
            if t >= to {
                return false;
            }
        }
        true
    }
}

/// A code system: a named catalogue of codes.
#[derive(Debug, Clone, PartialEq, Eq)]
pub struct CodeSystemDef {
    pub id: String,
    pub name: String,
    pub display_name: Bilingual,
    pub description: String,
    pub uri: Option<String>,
    pub version: String,
    pub kind: CodeSystemKind,
    pub hierarchical: bool,
    pub codes: Vec<CodedValue>,
    pub deprecated_at: Option<i64>,
    pub replaced_by_id: Option<String>,
}

/// Model of a [`CodeSystemDef`].
pub struct CodeSystemModel {
    pub id: Seq<char>,
    pub name: Seq<char>,
    pub display_name: BilingualModel,
    pub description: Seq<char>,
    pub uri: Option<Seq<char>>,
    pub version: Seq<char>,
    pub external_source: Option<Seq<char>>,
    pub hierarchical: bool,
    pub codes: Seq<CodedValueModel>,
    pub deprecated_at: Option<i64>,
    pub replaced_by_id: Option<Seq<char>>,
}

impl View for CodeSystemDef {
    type V = CodeSystemModel;

    open spec fn view(&self) -> CodeSystemModel {
        CodeSystemModel {
            id: self.id@,
            name: self.name@,
            display_name: self.display_name@,
            description: self.description@,
            uri: opt_text(self.uri),
            version: self.version@,
            external_source: kind_model(self.kind),
            hierarchical: self.hierarchical,
            codes: models(self.codes@),
            deprecated_at: self.deprecated_at,
            replaced_by_id: opt_text(self.replaced_by_id),
        }
    }
}

impl DeepCopy for CodeSystemDef {
    fn deep_copy(&self) -> (r: CodeSystemDef) {
        let kind = match &self.kind {
            CodeSystemKind::Internal => CodeSystemKind::Internal,
            CodeSystemKind::External { source_ref } => CodeSystemKind::External {
                source_ref: source_ref.clone(),
            },
        };
        CodeSystemDef {
            id: self.id.clone(),
            name: self.name.clone(),
            display_name: self.display_name.deep_copy(),
            description: self.description.clone(),
            uri: copy_opt_text(&self.uri),
            version: self.version.clone(),
            kind,
            hierarchical: self.hierarchical,
            codes: copy_vec(&self.codes),
            deprecated_at: self.deprecated_at,
            replaced_by_id: copy_opt_text(&self.replaced_by_id),
        }
    }
}

/// Index of the first code whose code text is `code`.
pub open spec fn first_code(cs: Seq<CodedValueModel>, code: Seq<char>) -> Option<int>
    decreases cs.len(),
{
    if cs.len() == 0 {
        None
    } else {
        match first_code(cs.drop_last(), code) {
            Some(i) => Some(i),
            None => if cs.last().code == code {
                Some(cs.len() - 1)
            } else {
                None
            },
        }
    }
}

/// Some code of `cs` has code text `code`.
pub open spec fn has_code(cs: Seq<CodedValueModel>, code: Seq<char>) -> bool {
    exists|i: int| 0 <= i < cs.len() && (#[trigger] cs[i]).code == code
}

/// Some code of `cs` has id `id`.
pub open spec fn has_code_id(cs: Seq<CodedValueModel>, id: Seq<char>) -> bool {
    exists|i: int| 0 <= i < cs.len() && (#[trigger] cs[i]).id == id
}

impl CodeSystemDef {
    /// The first code of the system whose code text is `code`.
    pub fn find_code(&self, code: &str) -> (r: Option<&CodedValue>)
        ensures
            match r {
                Some(c) => exists|i: int|
                    first_code(self@.codes, code@) == Some(i) && 0 <= i < self.codes@.len() && self.codes@[i]
                        == *c,
                None => first_code(self@.codes, code@) is None,
            },
    {
        let ghost cs = self@.codes;
        let mut i: usize = 0;
        assert(cs.take(0) =~= Seq::<CodedValueModel>::empty());
        while i < self.codes.len()
            invariant
                i <= self.codes.len(),
                cs == self@.codes,
                first_code(cs.take(i as int), code@) is None,
            decreases self.codes.len() - i,
        {
            assert(cs.take(i + 1).drop_last() =~= cs.take(i as int));
            assert(cs.take(i + 1).last() == self.codes@[i as int]@);
            if str_equal(self.codes[i].code.as_str(), code) {
                proof {
                    lemma_first_code_prefix(cs, code@, i + 1);
                }
                return Some(&self.codes[i]);
            }
            i = i + 1;
        }
        assert(cs.take(self.codes.len() as int) =~= cs);
        None
    }
}

/// The first match in a prefix is the first match of the whole.
proof fn lemma_first_code_prefix(cs: Seq<CodedValueModel>, code: Seq<char>, k: int)
    requires
        0 <= k <= cs.len(),
        first_code(cs.take(k), code) is Some,
    ensures
        first_code(cs, code) == first_code(cs.take(k), code),
    decreases cs.len() - k,
{
    if k < cs.len() {
        assert(cs.take(k + 1).drop_last() =~= cs.take(k));
        lemma_first_code_prefix(cs, code, k + 1);
    } else {
        assert(cs.take(k) =~= cs);
    }
}

/// A character's code with ASCII upper-case letters lowered.
pub open spec fn lower_code(c: char) -> u32 {
    if 'A' <= c && c <= 'Z' {
        (c as u32 + 32) as u32
    } else {
        c as u32
    }
}

/// Two texts are equal once ASCII letters are lowered.
pub open spec fn same_ignoring_ascii_case(a: Seq<char>, b: Seq<char>) -> bool {
    a.len() == b.len() && forall|i: int| 0 <= i < a.len() ==> lower_code(#[trigger] a[i]) == lower_code(b[i])
}

/// A code answers to `needle`: its code or one of its aliases equals it
/// ignoring ASCII case.
pub open spec fn answers_to(c: CodedValueModel, needle: Seq<char>) -> bool {
    same_ignoring_ascii_case(c.code, needle) || exists|k: int|
        0 <= k < c.aliases.len() && same_ignoring_ascii_case(#[trigger] c.aliases[k], needle)
}

/// Index of the first code that answers to `needle`.
pub open spec fn first_answering(cs: Seq<CodedValueModel>, needle: Seq<char>) -> Option<int>
    decreases cs.len(),
{
    if cs.len() == 0 {
        None
    } else {
        match first_answering(cs.drop_last(), needle) {
            Some(i) => Some(i),
            None => if answers_to(cs.last(), needle) {
                Some(cs.len() - 1)
            } else {
                None
            },
        }
    }
}

/// A character of the Unicode `White_Space` property: tab through
/// carriage return, space, next line, no-break space, ogham space mark,
/// the spaces from en quad to hair space, the line and paragraph
/// separators, narrow no-break space, medium mathematical space and
/// ideographic space.
pub open spec fn is_white_space(c: char) -> bool {
    let n = c as u32;
    ||| 0x09 <= n <= 0x0d
    ||| n == 0x20
    ||| n == 0x85
    ||| n == 0xa0
    ||| n == 0x1680
    ||| 0x2000 <= n <= 0x200a
    ||| n == 0x2028
    ||| n == 0x2029
    ||| n == 0x202f
    ||| n == 0x205f
    ||| n == 0x3000
}

/// A text without its leading white space.
pub open spec fn trim_start(s: Seq<char>) -> Seq<char>
    decreases s.len(),
{
    if s.len() > 0 && is_white_space(s[0]) {
        trim_start(s.drop_first())
    } else {
        s
    }
}

/// A text without its trailing white space.
pub open spec fn trim_end(s: Seq<char>) -> Seq<char>
    decreases s.len(),
{
    if s.len() > 0 && is_white_space(s.last()) {
        trim_end(s.drop_last())
    } else {
        s
    }
}

/// A text without its leading and trailing white space.
pub open spec fn trimmed(s: Seq<char>) -> Seq<char> {
    trim_end(trim_start(s))
}

/// `str::trim`: the text without leading and trailing white space, white
/// space being the Unicode `White_Space` property, as the standard
/// library documents it.
#[verifier::external_body]
pub(crate) fn trim_text(s: &str) -> (r: &str)
    ensures
        r@ == trimmed(s@),
{
    s.trim()
}

fn lower_char_code(c: char) -> (r: u32)
    ensures
        r == lower_code(c),
{
    if 'A' <= c && c <= 'Z' {
        c as u32 + 32
    } else {
        c as u32
    }
}

fn eq_ignoring_ascii_case(a: &str, b: &str) -> (r: bool)
    ensures
        r == same_ignoring_ascii_case(a@, b@),
{
    let n = a.unicode_len();
    if n != b.unicode_len() {
        return false;
    }
    let mut i: usize = 0;
    while i < n
        invariant
            n == a@.len(),
            n == b@.len(),
            i <= n,
            forall|k: int| 0 <= k < i ==> lower_code(#[trigger] a@[k]) == lower_code(b@[k]),
        decreases n - i,
    {
        if lower_char_code(a.get_char(i)) != lower_char_code(b.get_char(i)) {
            return false;
        }
        i = i + 1;
    }
    true
}

fn code_answers(c: &CodedValue, needle: &str) -> (r: bool)
    ensures
        r == answers_to(c@, needle@),
{
    if eq_ignoring_ascii_case(c.code.as_str(), needle) {
        return true;
    }
    let mut k: usize = 0;
    while k < c.aliases.len()
        invariant
            k <= c.aliases.len(),
            forall|j: int| 0 <= j < k ==> !same_ignoring_ascii_case(#[trigger] c@.aliases[j], needle@),
        decreases c.aliases.len() - k,
    {
        if eq_ignoring_ascii_case(c.aliases[k].as_str(), needle) {
            assert(same_ignoring_ascii_case(c@.aliases[k as int], needle@));
            return true;
        }
        k = k + 1;
    }
    false
}

/// The first index at which `first_answering` stops in a prefix is the
/// first of the whole.
proof fn lemma_first_answering_prefix(cs: Seq<CodedValueModel>, needle: Seq<char>, k: int)
    requires
        0 <= k <= cs.len(),
        first_answering(cs.take(k), needle) is Some,
    ensures
        first_answering(cs, needle) == first_answering(cs.take(k), needle),
    decreases cs.len() - k,
{
    if k < cs.len() {
        assert(cs.take(k + 1).drop_last() =~= cs.take(k));
        lemma_first_answering_prefix(cs, needle, k + 1);
    } else {
        assert(cs.take(k) =~= cs);
    }
}

impl CodeSystemDef {
    /// The first code whose code or one of whose aliases equals `needle`
    /// ignoring ASCII case.
    pub fn find_by_alias(&self, needle: &str) -> (r: Option<&CodedValue>)
        ensures
            match r {
                Some(c) => exists|i: int|
                    first_answering(self@.codes, needle@) == Some(i) && 0 <= i < self.codes@.len()
                        && self.codes@[i] == *c,
                None => first_answering(self@.codes, needle@) is None,
            },
    {
        let ghost cs = self@.codes;
        let mut i: usize = 0;
        assert(cs.take(0) =~= Seq::<CodedValueModel>::empty());
        while i < self.codes.len()
            invariant
                i <= self.codes.len(),
                cs == self@.codes,
                first_answering(cs.take(i as int), needle@) is None,
            decreases self.codes.len() - i,
        {
            assert(cs.take(i + 1).drop_last() =~= cs.take(i as int));
            assert(cs.take(i + 1).last() == self.codes@[i as int]@);
            if code_answers(&self.codes[i], needle) {
                proof {
                    lemma_first_answering_prefix(cs, needle@, i + 1);
                }
                return Some(&self.codes[i]);
            }
            i = i + 1;
        }
        assert(cs.take(self.codes.len() as int) =~= cs);
        None
    }

    /// The first code whose code or one of whose aliases equals `text`,
    /// trimmed, ignoring ASCII case.
    pub fn alias_matches(&self, text: &str) -> (r: Option<&CodedValue>)
        ensures
            match r {
                Some(c) => exists|i: int|
                    first_answering(self@.codes, trimmed(text@)) == Some(i) && 0 <= i < self.codes@.len()
                        && self.codes@[i] == *c,
                None => first_answering(self@.codes, trimmed(text@)) is None,
            },
    {
        self.find_by_alias(trim_text(text))
    }
}

/// The units the UCUM seed holds, by code.
pub open spec fn ucum_codes() -> Seq<Seq<char>> {
    seq![
        "g"@, "kg"@, "mg"@, "m"@, "km"@, "cm"@, "mm"@, "s"@, "min"@, "h"@, "d"@, "Hz"@, "L"@, "mL"@,
        "USD"@, "KRW"@, "EUR"@, "JPY"@, "CNY"@,
    ]
}

fn ucum_code(short: &str, display_en: &str, display_ko: &str) -> (r: CodedValue)
    ensures
        r@.code == short@,
        r@.id == "ucum-"@ + short@,
        r@.display.en == display_en@,
        r@.display.ko == display_ko@,
        r@.aliases.len() == 0,
        r@.broader_id is None,
        r@.valid_from is None,
        r@.valid_to is None,
        r@.deprecated_at is None,
        r@.replaced_by_id is None,
{
    let mut id = String::from_str("ucum-");
    id.append(short);
    let r = CodedValue {
        id,
        code: short.to_string(),
        display: Bilingual { en: display_en.to_string(), ko: display_ko.to_string() },
        aliases: Vec::new(),
        broader_id: None,
        valid_from: None,
        valid_to: None,
        deprecated_at: None,
        replaced_by_id: None,
    };
    assert(r@.aliases =~= Seq::<Seq<char>>::empty());
    r
}

/// A small UCUM code system for property units: mass, length, time,
/// frequency, volume and currency codes, each with id `ucum-` and its
/// code, an external, flat system under the given id and version.
pub fn ucum_seed(id: String, version: String) -> (r: CodeSystemDef)
    ensures
        r@.id == id@,
        r@.version == version@,
        r@.name == "UCUM"@,
        r@.uri == Some("http://unitsofmeasure.org"@),
        r@.external_source == Some("http://unitsofmeasure.org"@),
        !r@.hierarchical,
        r@.deprecated_at is None,
        r@.replaced_by_id is None,
        r@.codes.map_values(|c: CodedValueModel| c.code) == ucum_codes(),
        forall|i: int| 0 <= i < r@.codes.len() ==> (#[trigger] r@.codes[i]).id == "ucum-"@ + r@.codes[i].code,
{
    let codes = vec![
        ucum_code("g", "gram", "\u{adf8}\u{b7a8}"),
        ucum_code("kg", "kilogram", "\u{d0ac}\u{b85c}\u{adf8}\u{b7a8}"),
        ucum_code("mg", "milligram", "\u{bc00}\u{b9ac}\u{adf8}\u{b7a8}"),
        ucum_code("m", "meter", "\u{bbf8}\u{d130}"),
        ucum_code("km", "kilometer", "\u{d0ac}\u{b85c}\u{bbf8}\u{d130}"),
        ucum_code("cm", "centimeter", "\u{c13c}\u{d2f0}\u{bbf8}\u{d130}"),
        ucum_code("mm", "millimeter", "\u{bc00}\u{b9ac}\u{bbf8}\u{d130}"),
        ucum_code("s", "second", "\u{cd08}"),
        ucum_code("min", "minute", "\u{bd84}"),
        ucum_code("h", "hour", "\u{c2dc}\u{ac04}"),
        ucum_code("d", "day", "\u{c77c}"),
        ucum_code("Hz", "hertz", "\u{d5e4}\u{b974}\u{cc20}"),
        ucum_code("L", "liter", "\u{b9ac}\u{d130}"),
        ucum_code("mL", "milliliter", "\u{bc00}\u{b9ac}\u{b9ac}\u{d130}"),
        ucum_code("USD", "US dollar", "\u{bbf8}\u{ad6d} \u{b2ec}\u{b7ec}"),
        ucum_code("KRW", "Korean won", "\u{b300}\u{d55c}\u{bbfc}\u{ad6d} \u{c6d0}"),
        ucum_code("EUR", "euro", "\u{c720}\u{b85c}"),
        ucum_code("JPY", "Japanese yen", "\u{c77c}\u{bcf8} \u{c5d4}"),
        ucum_code("CNY", "Chinese yuan", "\u{c911}\u{ad6d} \u{c704}\u{c548}"),
    ];
    let r = CodeSystemDef {
        id,
        name: String::from_str("UCUM"),
        display_name: Bilingual {
            en: String::from_str("Unified Code for Units of Measure"),
            ko: String::from_str("\u{b2e8}\u{c704} \u{d45c}\u{c900} \u{cf54}\u{b4dc} (UCUM)"),
        },
        description: String::new(),
        uri: Some(String::from_str("http://unitsofmeasure.org")),
        version,
        kind: CodeSystemKind::External { source_ref: String::from_str("http://unitsofmeasure.org") },
        hierarchical: false,
        codes,
        deprecated_at: None,
        replaced_by_id: None,
    };
    assert(r@.codes.map_values(|c: CodedValueModel| c.code) =~= ucum_codes());
    r
}

// ---------------------------------------------------------------------------
// Concept maps
// ---------------------------------------------------------------------------

/// Semantic relation between a source and a target code.
#[derive(Debug, Clone, Copy, PartialEq, Eq, Structural)]
pub enum Equivalence {
    /// Same meaning; safe to substitute either way.
    Equivalent,
    /// The target is narrower than the source.
    NarrowerThanTarget,
    /// The target is broader than the source.
    BroaderThanTarget,
    /// Related, with neither equivalence nor hierarchy.
    Related,
    /// Explicitly no match.
    Disjoint,
}

/// One code-to-code entry of a concept map.
#[derive(Debug, Clone, PartialEq, Eq)]
pub struct ConceptMapping {
    pub source_code: String,
    pub target_code: String,
    pub equivalence: Equivalence,
    pub comment: String,
}

/// Model of a [`ConceptMapping`].
pub struct ConceptMappingModel {
    pub source_code: Seq<char>,
    pub target_code: Seq<char>,
    pub equivalence: Equivalence,
    pub comment: Seq<char>,
}

impl View for ConceptMapping {
    type V = ConceptMappingModel;

    open spec fn view(&self) -> ConceptMappingModel {
        ConceptMappingModel {
            source_code: self.source_code@,
            target_code: self.target_code@,
            equivalence: self.equivalence,
            comment: self.comment@,
        }
    }
}

impl DeepCopy for ConceptMapping {
    fn deep_copy(&self) -> (r: ConceptMapping) {
        ConceptMapping {
            source_code: self.source_code.clone(),
            target_code: self.target_code.clone(),
            equivalence: self.equivalence,
            comment: self.comment.clone(),
        }
    }
}

/// A map from the codes of one code system to those of another.
#[derive(Debug, Clone, PartialEq, Eq)]
pub struct ConceptMapDef {
    pub id: String,
    pub name: String,
    pub display_name: String,
    pub description: String,
    pub version: String,
    pub source_system_id: String,
    pub target_system_id: String,
    pub mappings: Vec<ConceptMapping>,
}

/// Model of a [`ConceptMapDef`].
pub struct ConceptMapModel {
    pub id: Seq<char>,
    pub name: Seq<char>,
    pub display_name: Seq<char>,
    pub description: Seq<char>,
    pub version: Seq<char>,
    pub source_system_id: Seq<char>,
    pub target_system_id: Seq<char>,
    pub mappings: Seq<ConceptMappingModel>,
}

impl View for ConceptMapDef {
    type V = ConceptMapModel;

    open spec fn view(&self) -> ConceptMapModel {
        ConceptMapModel {
            id: self.id@,
            name: self.name@,
            display_name: self.display_name@,
            description: self.description@,
            version: self.version@,
            source_system_id: self.source_system_id@,
            target_system_id: self.target_system_id@,
            mappings: models(self.mappings@),
        }
    }
}

impl DeepCopy for ConceptMapDef {
    fn deep_copy(&self) -> (r: ConceptMapDef) {
        ConceptMapDef {
            id: self.id.clone(),
            name: self.name.clone(),
            display_name: self.display_name.clone(),
            description: self.description.clone(),
            version: self.version.clone(),
            source_system_id: self.source_system_id.clone(),
            target_system_id: self.target_system_id.clone(),
            mappings: copy_vec(&self.mappings),
        }
    }
}

/// One result of mapping a code: the code looked up, the code it maps
/// to, and their relation.
#[derive(Debug, Clone, PartialEq, Eq)]
pub struct Translation {
    pub source_code: String,
    pub target_code: String,
    pub equivalence: Equivalence,
}

/// Model of a [`Translation`].
pub struct TranslationModel {
    pub source_code: Seq<char>,
    pub target_code: Seq<char>,
    pub equivalence: Equivalence,
}

impl View for Translation {
    type V = TranslationModel;

    open spec fn view(&self) -> TranslationModel {
        TranslationModel {
            source_code: self.source_code@,
            target_code: self.target_code@,
            equivalence: self.equivalence,
        }
    }
}

/// Forward lookup of `code` through one entry.
pub open spec fn forward(code: Seq<char>) -> spec_fn(ConceptMappingModel) -> Option<TranslationModel> {
    |m: ConceptMappingModel|
        if m.source_code == code {
            Some(TranslationModel {
                source_code: m.source_code,
                target_code: m.target_code,
                equivalence: m.equivalence,
            })
        } else {
            None
        }
}

/// Reverse lookup of `code` through one entry: only equivalent entries
/// map back.
pub open spec fn backward(code: Seq<char>) -> spec_fn(ConceptMappingModel) -> Option<TranslationModel> {
    |m: ConceptMappingModel|
        if m.target_code == code && m.equivalence == Equivalence::Equivalent {
            Some(TranslationModel {
                source_code: m.target_code,
                target_code: m.source_code,
                equivalence: m.equivalence,
            })
        } else {
            None
        }
}

/// An entry read the other way.
pub open spec fn flipped(m: ConceptMappingModel) -> ConceptMappingModel {
    ConceptMappingModel {
        source_code: m.target_code,
        target_code: m.source_code,
        equivalence: m.equivalence,
        comment: m.comment,
    }
}

/// The map read the other way: systems swapped, every entry flipped.
pub open spec fn inverse_map(cm: ConceptMapModel) -> ConceptMapModel {
    ConceptMapModel {
        source_system_id: cm.target_system_id,
        target_system_id: cm.source_system_id,
        mappings: cm.mappings.map_values(|m: ConceptMappingModel| flipped(m)),
        ..cm
    }
}

/// Every entry of the map is an equivalence.
pub open spec fn all_equivalent(cm: ConceptMapModel) -> bool {
    forall|i: int| 0 <= i < cm.mappings.len() ==> (#[trigger] cm.mappings[i]).equivalence == Equivalence::Equivalent
}

impl ConceptMapDef {
    /// Every entry whose source code is `source_code`, in order.
    pub fn translate(&self, source_code: &str) -> (r: Vec<Translation>)
        ensures
            models(r@) == self@.mappings.filter_map(forward(source_code@)),
    {
        let ghost ms = self@.mappings;
        let mut out: Vec<Translation> = Vec::new();
        let mut i: usize = 0;
        assert(ms.take(0) =~= Seq::<ConceptMappingModel>::empty());
        while i < self.mappings.len()
            invariant
                i <= self.mappings.len(),
                ms == self@.mappings,
                models(out@) == ms.take(i as int).filter_map(forward(source_code@)),
            decreases self.mappings.len() - i,
        {
            assert(ms.take(i + 1).drop_last() =~= ms.take(i as int));
            assert(ms.take(i + 1).last() == self.mappings@[i as int]@);
            let m = &self.mappings[i];
            if str_equal(m.source_code.as_str(), source_code) {
                let ghost before = out@;
                out.push(
                    Translation {
                        source_code: m.source_code.clone(),
                        target_code: m.target_code.clone(),
                        equivalence: m.equivalence,
                    },
                );
                assert(models(out@) =~= models(before).push(out@.last()@));
            }
            i = i + 1;
        }
        assert(ms.take(self.mappings.len() as int) =~= ms);
        out
    }

    /// Every equivalent entry whose target code is `target_code`, read
    /// backwards, in order.
    pub fn translate_reverse(&self, target_code: &str) -> (r: Vec<Translation>)
        ensures
            models(r@) == self@.mappings.filter_map(backward(target_code@)),
    {
        let ghost ms = self@.mappings;
        let mut out: Vec<Translation> = Vec::new();
        let mut i: usize = 0;
        assert(ms.take(0) =~= Seq::<ConceptMappingModel>::empty());
        while i < self.mappings.len()
            invariant
                i <= self.mappings.len(),
                ms == self@.mappings,
                models(out@) == ms.take(i as int).filter_map(backward(target_code@)),
            decreases self.mappings.len() - i,
        {
            assert(ms.take(i + 1).drop_last() =~= ms.take(i as int));
            assert(ms.take(i + 1).last() == self.mappings@[i as int]@);
            let m = &self.mappings[i];
            if str_equal(m.target_code.as_str(), target_code) && m.equivalence == Equivalence::Equivalent {
                let ghost before = out@;
                out.push(
                    Translation {
                        source_code: m.target_code.clone(),
                        target_code: m.source_code.clone(),
                        equivalence: m.equivalence,
                    },
                );
                assert(models(out@) =~= models(before).push(out@.last()@));
            }
            i = i + 1;
        }
        assert(ms.take(self.mappings.len() as int) =~= ms);
        out
    }

    /// The map read the other way, when every entry is an equivalence;
    /// `None` otherwise. The id, name, version and descriptions are kept,
    /// the systems swapped and each entry flipped with its comment.
    pub fn try_inverse(&self) -> (r: Option<ConceptMapDef>)
        ensures
            match r {
                Some(inv) => all_equivalent(self@) && inv@ == inverse_map(self@),
                None => !all_equivalent(self@),
            },
    {
        let mut i: usize = 0;
        while i < self.mappings.len()
            invariant
                i <= self.mappings.len(),
                forall|j: int| 0 <= j < i ==> (#[trigger] self.mappings@[j]).equivalence == Equivalence::Equivalent,
            decreases self.mappings.len() - i,
        {
            if self.mappings[i].equivalence != Equivalence::Equivalent {
                assert(self@.mappings[i as int].equivalence != Equivalence::Equivalent);
                return None;
            }
            i = i + 1;
        }
        let mut mappings: Vec<ConceptMapping> = Vec::new();
        let mut k: usize = 0;
        while k < self.mappings.len()
            invariant
                k <= self.mappings.len(),
                mappings@.len() == k,
                forall|j: int| 0 <= j < k ==> (#[trigger] mappings@[j])@ == flipped(self.mappings@[j]@),
            decreases self.mappings.len() - k,
        {
            let m = &self.mappings[k];
            mappings.push(
                ConceptMapping {
                    source_code: m.target_code.clone(),
                    target_code: m.source_code.clone(),
                    equivalence: m.equivalence,
                    comment: m.comment.clone(),
                },
            );
            k = k + 1;
        }
        let inv = ConceptMapDef {
            id: self.id.clone(),
            name: self.name.clone(),
            display_name: self.display_name.clone(),
            description: self.description.clone(),
            version: self.version.clone(),
            source_system_id: self.target_system_id.clone(),
            target_system_id: self.source_system_id.clone(),
            mappings,
        };
        assert(inv@.mappings =~= inverse_map(self@).mappings);
        Some(inv)
    }
}

/// Inverting an all-equivalent map twice gives the map back.
pub proof fn lemma_inverse_involutive(cm: ConceptMapModel)
    requires
        all_equivalent(cm),
    ensures
        all_equivalent(inverse_map(cm)),
        inverse_map(inverse_map(cm)) == cm,
{
    let inv = inverse_map(cm);
    assert(inverse_map(inv).mappings =~= cm.mappings);
}

/// Looking codes up backwards through a map is looking them up forwards through its
/// inverse, when every entry is an equivalence.
pub proof fn lemma_reverse_is_inverse_forward(cm: ConceptMapModel, code: Seq<char>)
    requires
        all_equivalent(cm),
    ensures
        cm.mappings.filter_map(backward(code)) == inverse_map(cm).mappings.filter_map(forward(code)),
    decreases cm.mappings.len(),
{
    let ms = cm.mappings;
    if ms.len() > 0 {
        let shorter = ConceptMapModel { mappings: ms.drop_last(), ..cm };
        assert(all_equivalent(shorter)) by {
            assert forall|i: int| 0 <= i < shorter.mappings.len() implies (#[trigger] shorter.mappings[i]).equivalence
                == Equivalence::Equivalent by {
                assert(shorter.mappings[i] == ms[i]);
            }
        }
        lemma_reverse_is_inverse_forward(shorter, code);
        assert(inverse_map(shorter).mappings =~= inverse_map(cm).mappings.drop_last());
        assert(ms.last().equivalence == Equivalence::Equivalent) by {
            assert(ms[ms.len() - 1].equivalence == Equivalence::Equivalent);
        }
    } else {
        assert(inverse_map(cm).mappings.len() == 0);
    }
}

// ---------------------------------------------------------------------------
// Value sets and the registry collection
// ---------------------------------------------------------------------------

/// How a value set picks codes from a code system.
#[derive(Debug, Clone, PartialEq, Eq)]
pub enum ValueSetSelector {
    /// Every code of the system.
    All,
    /// The codes listed, by code text.
    Explicit { codes: Vec<String> },
    /// The code with this id and every code below it.
    DescendantsOf { root_id: String },
    /// Codes whose text matches a pattern.
    CodePattern { pattern: String },
}

/// Model of a [`ValueSetSelector`].
pub enum SelectorModel {
    All,
    Explicit(Seq<Seq<char>>),
    DescendantsOf(Seq<char>),
    CodePattern(Seq<char>),
}

impl View for ValueSetSelector {
    type V = SelectorModel;

    open spec fn view(&self) -> SelectorModel {
        match self {
            ValueSetSelector::All => SelectorModel::All,
            ValueSetSelector::Explicit { codes } => SelectorModel::Explicit(texts(codes@)),
            ValueSetSelector::DescendantsOf { root_id } => SelectorModel::DescendantsOf(root_id@),
            ValueSetSelector::CodePattern { pattern } => SelectorModel::CodePattern(pattern@),
        }
    }
}

/// One composition rule of a value set: codes of one system.
#[derive(Debug, Clone, PartialEq, Eq)]
pub struct ValueSetIncludeRule {
    pub system_id: String,
    pub selector: ValueSetSelector,
}

/// Model of a [`ValueSetIncludeRule`].
pub struct IncludeRuleModel {
    pub system_id: Seq<char>,
    pub selector: SelectorModel,
}

impl View for ValueSetIncludeRule {
    type V = IncludeRuleModel;

    open spec fn view(&self) -> IncludeRuleModel {
        IncludeRuleModel { system_id: self.system_id@, selector: self.selector@ }
    }
}

impl DeepCopy for ValueSetIncludeRule {
    fn deep_copy(&self) -> (r: ValueSetIncludeRule) {
        let selector = match &self.selector {
            ValueSetSelector::All => ValueSetSelector::All,
            ValueSetSelector::Explicit { codes } => ValueSetSelector::Explicit { codes: copy_texts(codes) },
            ValueSetSelector::DescendantsOf { root_id } => ValueSetSelector::DescendantsOf {
                root_id: root_id.clone(),
            },
            ValueSetSelector::CodePattern { pattern } => ValueSetSelector::CodePattern {
                pattern: pattern.clone(),
            },
        };
        ValueSetIncludeRule { system_id: self.system_id.clone(), selector }
    }
}

/// A value set: a named selection of codes.
#[derive(Debug, Clone, PartialEq, Eq)]
pub struct ValueSetDef {
    pub id: String,
    pub name: String,
    pub composition: Vec<ValueSetIncludeRule>,
}

/// Model of a [`ValueSetDef`].
pub struct ValueSetModel {
    pub id: Seq<char>,
    pub name: Seq<char>,
    pub composition: Seq<IncludeRuleModel>,
}

impl View for ValueSetDef {
    type V = ValueSetModel;

    open spec fn view(&self) -> ValueSetModel {
        ValueSetModel { id: self.id@, name: self.name@, composition: models(self.composition@) }
    }
}

impl DeepCopy for ValueSetDef {
    fn deep_copy(&self) -> (r: ValueSetDef) {
        ValueSetDef {
            id: self.id.clone(),
            name: self.name.clone(),
            composition: copy_vec(&self.composition),
        }
    }
}

/// The registries of an ontology.
#[derive(Debug, Clone, PartialEq, Eq, Default)]
pub struct Registries {
    pub concepts: Vec<ConceptDef>,
    pub glossary_terms: Vec<GlossaryTermDef>,
    pub value_sets: Vec<ValueSetDef>,
    /// Ids of the notation patterns.
    pub notation_patterns: Vec<String>,
    /// Ids of the value-range sets.
    pub value_range_sets: Vec<String>,
    pub code_systems: Vec<CodeSystemDef>,
    pub concept_maps: Vec<ConceptMapDef>,
}

/// Model of [`Registries`].
pub struct RegistriesModel {
    pub concepts: Seq<ConceptModel>,
    pub glossary_terms: Seq<GlossaryTermModel>,
    pub value_sets: Seq<ValueSetModel>,
    pub notation_patterns: Seq<Seq<char>>,
    pub value_range_sets: Seq<Seq<char>>,
    pub code_systems: Seq<CodeSystemModel>,
    pub concept_maps: Seq<ConceptMapModel>,
}

impl View for Registries {
    type V = RegistriesModel;

    open spec fn view(&self) -> RegistriesModel {
        RegistriesModel {
            concepts: models(self.concepts@),
            glossary_terms: models(self.glossary_terms@),
            value_sets: models(self.value_sets@),
            notation_patterns: texts(self.notation_patterns@),
            value_range_sets: texts(self.value_range_sets@),
            code_systems: models(self.code_systems@),
            concept_maps: models(self.concept_maps@),
        }
    }
}

impl DeepCopy for Registries {
    fn deep_copy(&self) -> (r: Registries) {
        Registries {
            concepts: copy_vec(&self.concepts),
            glossary_terms: copy_vec(&self.glossary_terms),
            value_sets: copy_vec(&self.value_sets),
            notation_patterns: copy_texts(&self.notation_patterns),
            value_range_sets: copy_texts(&self.value_range_sets),
            code_systems: copy_vec(&self.code_systems),
            concept_maps: copy_vec(&self.concept_maps),
        }
    }
}

impl Keyed for CodedValue {
    open spec fn key_of(m: CodedValueModel) -> Seq<char> {
        m.id
    }

    fn key(&self) -> (r: &String) {
        &self.id
    }
}

impl Keyed for CodeSystemDef {
    open spec fn key_of(m: CodeSystemModel) -> Seq<char> {
        m.id
    }

    fn key(&self) -> (r: &String) {
        &self.id
    }
}

impl Keyed for ValueSetDef {
    open spec fn key_of(m: ValueSetModel) -> Seq<char> {
        m.id
    }

    fn key(&self) -> (r: &String) {
        &self.id
    }
}

impl Keyed for ConceptMapDef {
    open spec fn key_of(m: ConceptMapModel) -> Seq<char> {
        m.id
    }

    fn key(&self) -> (r: &String) {
        &self.id
    }
}

} // verus!
