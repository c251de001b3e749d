//! Lexical signals for glossary-to-property binding suggestions: the
//! normalised identifier, word tokens and character bigrams a scorer
//! compares, and the named signals a suggestion carries.

use vstd::prelude::*;

use vstd::string::StrSliceExecFns;
use vstd::string::StringExecFns;

use crate::glossary::GlossaryTermDef;
use crate::ir::PropertyDef;
use crate::glossary::term_matches;
use crate::ir::{EdgeTypeDef, NodeTypeDef, OntologyIR, OntologyModel, PropertyModel};
use crate::model::{first_match, key_is, lemma_first_match_props, lemma_first_match_scan, models, position_of, texts};
use crate::registry::{trim_text, trimmed};
use crate::rule::{Bilingual, BilingualModel};
use crate::text::{dedup_adjacent, dedup_texts, sort_texts, sorted_texts};

verus! {

/// The owner a suggested property belongs to, with its label.
#[derive(Debug, Clone, PartialEq, Eq)]
pub enum PropertyOwnerRef {
    Node { node_type: String, label: String },
    Edge { edge_type: String, label: String },
}

/// One signal that contributed to a suggestion's score.
#[derive(Debug, Clone, PartialEq, Eq)]
pub enum BindingSignal {
    /// Canonical names are identical.
    CanonicalNameMatch,
    /// An alias of one side equals a name on the other.
    AliasMatch { matched: String },
    /// How many of the term's tokens the property's description holds.
    DescriptionOverlap { shared_tokens: u32, total_tokens: u32 },
    /// Bigram similarity of the canonical names, in thousandths.
    FuzzyNameMatch { ratio_millis: u32 },
}

/// An ASCII letter or digit.
pub open spec fn ascii_alnum(c: char) -> bool {
    ('a' <= c && c <= 'z') || ('A' <= c && c <= 'Z') || ('0' <= c && c <= '9')
}

/// A character with ASCII upper-case letters lowered.
pub open spec fn ascii_lower(c: char) -> char {
    if 'A' <= c && c <= 'Z' {
        ((c as u32) + 32) as char
    } else {
        c
    }
}

/// ASCII letters and digits lowered, everything else `_`.
pub open spec fn identifier_char(c: char) -> char {
    if ascii_alnum(c) {
        ascii_lower(c)
    } else {
        '_'
    }
}

/// A text without its leading `_`.
pub open spec fn trim_start_underscores(t: Seq<char>) -> Seq<char>
    decreases t.len(),
{
    if t.len() > 0 && t[0] == '_' {
        trim_start_underscores(t.drop_first())
    } else {
        t
    }
}

/// A text without its trailing `_`.
pub open spec fn trim_end_underscores(t: Seq<char>) -> Seq<char>
    decreases t.len(),
{
    if t.len() > 0 && t.last() == '_' {
        trim_end_underscores(t.drop_last())
    } else {
        t
    }
}

/// The normalised identifier of a name: each character mapped by
/// [`identifier_char`], then leading and trailing `_` removed.
pub open spec fn normalised(s: Seq<char>) -> Seq<char> {
    trim_end_underscores(trim_start_underscores(s.map_values(|c: char| identifier_char(c))))
}

/// `String::push`: the text with `c` appended.
#[verifier::external_body]
fn push_char(s: &mut String, c: char)
    ensures
        final(s)@ == old(s)@.push(c),
{
    s.push(c)
}

fn identifier_char_of(c: char) -> (r: char)
    ensures
        r == identifier_char(c),
{
    if 'A' <= c && c <= 'Z' {
        let code = c as u8;
        assert(code as int == c as u32 as int);
        ((code + 32) as char)
    } else if ('a' <= c && c <= 'z') || ('0' <= c && c <= '9') {
        c
    } else {
        '_'
    }
}

/// The normalised identifier of a name: ASCII letters and digits
/// lowered, every other character `_`, leading and trailing `_`
/// removed.
pub fn normalise(value: &str) -> (r: String)
    ensures
        r@ == normalised(value@),
{
    let ghost mapped = value@.map_values(|c: char| identifier_char(c));
    let n = value.unicode_len();
    let mut start: usize = 0;
    assert(mapped.skip(0) =~= mapped);
    while start < n && identifier_char_of(value.get_char(start)) == '_'
        invariant
            n == value@.len(),
            start <= n,
            mapped == value@.map_values(|c: char| identifier_char(c)),
            trim_start_underscores(mapped) == trim_start_underscores(mapped.skip(start as int)),
        decreases n - start,
    {
        assert(mapped.skip(start as int).drop_first() =~= mapped.skip(start + 1));
        start = start + 1;
    }
    let mut end: usize = n;
    assert(mapped.skip(start as int) =~= mapped.subrange(start as int, n as int));
    assert(trim_start_underscores(mapped.skip(start as int)) == mapped.skip(start as int)) by {
        if start < n {
            assert(mapped.skip(start as int)[0] == mapped[start as int]);
        }
    }
    while end > start && identifier_char_of(value.get_char(end - 1)) == '_'
        invariant
            n == value@.len(),
            start <= end <= n,
            mapped == value@.map_values(|c: char| identifier_char(c)),
            normalised(value@) == trim_end_underscores(mapped.subrange(start as int, end as int)),
        decreases end - start,
    {
        assert(mapped.subrange(start as int, end as int).drop_last() =~= mapped.subrange(start as int, end - 1));
        end = end - 1;
    }
    let mut out = String::new();
    let mut i: usize = start;
    while i < end
        invariant
            n == value@.len(),
            start <= i <= end <= n,
            mapped == value@.map_values(|c: char| identifier_char(c)),
            out@ == mapped.subrange(start as int, i as int),
        decreases end - i,
    {
        push_char(&mut out, identifier_char_of(value.get_char(i)));
        assert(out@ =~= mapped.subrange(start as int, i + 1));
        i = i + 1;
    }
    proof {
        let t = mapped.subrange(start as int, end as int);
        if start < end {
            assert(t[0] != '_');
            assert(t.last() != '_');
        }
        assert(trim_end_underscores(t) == t);
    }
    out
}

/// Neighbouring character pairs of a text, in order.
pub open spec fn bigram_seq(s: Seq<char>) -> Seq<(char, char)> {
    Seq::new((if s.len() >= 2 { s.len() - 1 } else { 0 }) as nat, |i: int| (s[i], s[i + 1]))
}

/// Neighbouring character pairs of a text, in order.
pub fn bigrams(value: &str) -> (r: Vec<(char, char)>)
    ensures
        r@ == bigram_seq(value@),
{
    let n = value.unicode_len();
    let mut out: Vec<(char, char)> = Vec::new();
    let mut i: usize = 0;
    while i + 1 < n
        invariant
            n == value@.len(),
            i <= n,
            n >= 1 ==> i < n,
            out@.len() == i,
            forall|k: int| 0 <= k < i ==> #[trigger] out@[k] == (value@[k], value@[k + 1]),
        decreases n - i,
    {
        out.push((value.get_char(i), value.get_char(i + 1)));
        i = i + 1;
    }
    assert(out@ =~= bigram_seq(value@));
    out
}

/// What `char::is_alphanumeric` says of a character.
pub uninterp spec fn unicode_alnum(c: char) -> bool;

/// `char::is_alphanumeric`: whether the character is alphabetic or
/// numeric in Unicode. Which characters those are is left to the
/// standard library and named by [`unicode_alnum`].
#[verifier::external_body]
fn is_alphanumeric(c: char) -> (r: bool)
    ensures
        r == unicode_alnum(c),
{
    c.is_alphanumeric()
}

/// The maximal runs of alphanumeric characters of a text, in order.
pub open spec fn word_runs(s: Seq<char>) -> Seq<Seq<char>>
    decreases s.len(),
{
    if s.len() == 0 {
        Seq::empty()
    } else {
        let runs = word_runs(s.drop_last());
        let c = s.last();
        if !unicode_alnum(c) {
            runs
        } else if s.len() >= 2 && unicode_alnum(s[s.len() - 2]) {
            runs.update(runs.len() - 1, runs.last().push(c))
        } else {
            runs.push(seq![c])
        }
    }
}

/// A text with ASCII upper-case letters lowered.
pub open spec fn lowered() -> spec_fn(Seq<char>) -> Seq<char> {
    |t: Seq<char>| t.map_values(|c: char| ascii_lower(c))
}

/// A token longer than one byte in UTF-8.
pub open spec fn longer_than_one_byte() -> spec_fn(Seq<char>) -> bool {
    |t: Seq<char>| t.len() >= 2 || (t.len() == 1 && t[0] as u32 >= 0x80)
}

/// The word tokens of a text: its alphanumeric runs, ASCII-lowered,
/// without those of a single byte.
pub open spec fn word_tokens(s: Seq<char>) -> Seq<Seq<char>> {
    word_runs(s).map_values(lowered()).filter(longer_than_one_byte())
}

fn ascii_lower_of(c: char) -> (r: char)
    ensures
        r == ascii_lower(c),
{
    if 'A' <= c && c <= 'Z' {
        let code = c as u8;
        assert(code as int == c as u32 as int);
        ((code + 32) as char)
    } else {
        c
    }
}

/// The word tokens of a text: runs of alphanumeric characters, ASCII
/// letters lowered, keeping those longer than one byte.
pub fn tokenise(value: &str) -> (r: Vec<String>)
    ensures
        crate::model::texts(r@) == word_tokens(value@),
{
    let ghost s = value@;
    let n = value.unicode_len();
    let mut out: Vec<String> = Vec::new();
    let mut cur = String::new();
    let mut in_run = false;
    let mut i: usize = 0;
    assert(s.take(0) =~= Seq::<char>::empty());
    assert(crate::model::texts(out@) =~= Seq::<Seq<char>>::empty());
    while i < n
        invariant
            n == s.len(),
            s == value@,
            i <= n,
            in_run == (i > 0 && unicode_alnum(s[i - 1])),
            in_run ==> word_runs(s.take(i as int)).len() > 0 && cur@ == lowered()(word_runs(s.take(i as int)).last())
                && crate::model::texts(out@) == word_runs(s.take(i as int)).drop_last().map_values(lowered()).filter(
                longer_than_one_byte(),
            ),
            !in_run ==> crate::model::texts(out@) == word_runs(s.take(i as int)).map_values(lowered()).filter(
                longer_than_one_byte(),
            ),
        decreases n - i,
    {
        let c = value.get_char(i);
        let ghost runs = word_runs(s.take(i as int));
        assert(s.take(i + 1).drop_last() =~= s.take(i as int));
        assert(s.take(i + 1).last() == c);
        if i > 0 {
            assert(s.take(i + 1)[i - 1] == s[i - 1]);
        }
        if is_alphanumeric(c) {
            let ghost before = cur@;
            let lc = ascii_lower_of(c);
            if in_run {
                push_char(&mut cur, lc);
                proof {
                    let runs2 = word_runs(s.take(i + 1));
                    assert(runs2 == runs.update(runs.len() - 1, runs.last().push(c)));
                    assert(runs2.drop_last() =~= runs.drop_last());
                    assert(cur@ =~= lowered()(runs2.last()));
                }
            } else {
                cur = String::new();
                push_char(&mut cur, lc);
                proof {
                    let runs2 = word_runs(s.take(i + 1));
                    assert(runs2 == runs.push(seq![c]));
                    assert(runs2.drop_last() =~= runs);
                    assert(cur@ =~= lowered()(seq![c]));
                }
            }
            in_run = true;
        } else {
            if in_run {
                let ghost done = runs.drop_last().map_values(lowered());
                proof {
                    assert(runs =~= runs.drop_last().push(runs.last()));
                    assert(runs.map_values(lowered()) =~= done.push(lowered()(runs.last())));
                    done.lemma_filter_push(lowered()(runs.last()), longer_than_one_byte());
                }
                let keep = cur.unicode_len() >= 2 || (cur.unicode_len() == 1 && cur.as_str().get_char(0) as u32 >= 0x80);
                if keep {
                    let ghost o = out@;
                    out.push(cur);
                    assert(crate::model::texts(out@) =~= crate::model::texts(o).push(lowered()(runs.last())));
                }
                cur = String::new();
            }
            in_run = false;
        }
        i = i + 1;
    }
    if in_run {
        let ghost runs = word_runs(s.take(n as int));
        let ghost done = runs.drop_last().map_values(lowered());
        proof {
            assert(runs =~= runs.drop_last().push(runs.last()));
            assert(runs.map_values(lowered()) =~= done.push(lowered()(runs.last())));
            done.lemma_filter_push(lowered()(runs.last()), longer_than_one_byte());
        }
        let keep = cur.unicode_len() >= 2 || (cur.unicode_len() == 1 && cur.as_str().get_char(0) as u32 >= 0x80);
        if keep {
            let ghost o = out@;
            out.push(cur);
            assert(crate::model::texts(out@) =~= crate::model::texts(o).push(lowered()(runs.last())));
        }
    }
    assert(s.take(n as int) =~= s);
    out
}


/// The trimmed text, when it is not empty.
pub open spec fn text_values(s: Seq<char>) -> Seq<Seq<char>> {
    if trimmed(s).len() > 0 {
        seq![trimmed(s)]
    } else {
        Seq::empty()
    }
}

/// The non-empty trimmed texts of a label: its default, then its
/// translation when it has one.
pub open spec fn label_values(t: BilingualModel) -> Seq<Seq<char>> {
    text_values(t.en) + if t.ko.len() > 0 {
        text_values(t.ko)
    } else {
        Seq::empty()
    }
}

/// The values of several labels, label by label.
pub open spec fn labels_values(ts: Seq<BilingualModel>) -> Seq<Seq<char>>
    decreases ts.len(),
{
    if ts.len() == 0 {
        Seq::empty()
    } else {
        labels_values(ts.drop_last()) + label_values(ts.last())
    }
}

/// Each text normalised.
pub open spec fn normalised_all(vs: Seq<Seq<char>>) -> Seq<Seq<char>> {
    vs.map_values(|v: Seq<char>| normalised(v))
}

/// The word tokens of several texts, text by text.
pub open spec fn tokens_of(vs: Seq<Seq<char>>) -> Seq<Seq<char>>
    decreases vs.len(),
{
    if vs.len() == 0 {
        Seq::empty()
    } else {
        tokens_of(vs.drop_last()) + word_tokens(vs.last())
    }
}

/// Texts sorted, each kept once.
pub open spec fn distinct_sorted(s: Seq<Seq<char>>) -> Seq<Seq<char>> {
    dedup_adjacent(sorted_texts(s))
}

/// An alias worth keeping: not empty and not the canonical name.
pub open spec fn kept_alias(canonical: Seq<char>) -> spec_fn(Seq<char>) -> bool {
    |a: Seq<char>| a.len() > 0 && a != canonical
}

/// The alias keys of a side: its normalised alternative names without
/// empty ones and the canonical name, sorted, each once.
pub open spec fn alias_keys(raw: Seq<Seq<char>>, canonical: Seq<char>) -> Seq<Seq<char>> {
    distinct_sorted(raw.filter(kept_alias(canonical)))
}

fn text_values_of(s: &str) -> (r: Vec<String>)
    ensures
        texts(r@) == text_values(s@),
{
    let t = trim_text(s);
    let mut out: Vec<String> = Vec::new();
    if t.unicode_len() > 0 {
        out.push(String::from_str(t));
    }
    assert(texts(out@) =~= text_values(s@));
    out
}

fn append_texts(out: &mut Vec<String>, more: Vec<String>)
    ensures
        texts(final(out)@) == texts(old(out)@) + texts(more@),
{
    let ghost added = more@;
    let mut more = more;
    out.append(&mut more);
    assert(texts(out@) =~= texts(old(out)@) + texts(added));
}

fn localized_values(t: &Bilingual) -> (r: Vec<String>)
    ensures
        texts(r@) == label_values(t@),
{
    let mut out = text_values_of(t.en.as_str());
    if t.ko.as_str().unicode_len() > 0 {
        let more = text_values_of(t.ko.as_str());
        append_texts(&mut out, more);
    } else {
        assert(texts(out@) =~= texts(out@) + Seq::<Seq<char>>::empty());
    }
    out
}

fn labels_values_of(ts: &Vec<Bilingual>) -> (r: Vec<String>)
    ensures
        texts(r@) == labels_values(models(ts@)),
{
    let mut out: Vec<String> = Vec::new();
    let mut i: usize = 0;
    assert(models(ts@).take(0) =~= Seq::<BilingualModel>::empty());
    while i < ts.len()
        invariant
            i <= ts.len(),
            texts(out@) == labels_values(models(ts@).take(i as int)),
        decreases ts.len() - i,
    {
        let more = localized_values(&ts[i]);
        append_texts(&mut out, more);
        assert(models(ts@).take(i + 1).drop_last() =~= models(ts@).take(i as int));
        i = i + 1;
    }
    assert(models(ts@).take(ts.len() as int) =~= models(ts@));
    out
}

fn normalise_all(vs: &Vec<String>) -> (r: Vec<String>)
    ensures
        texts(r@) == normalised_all(texts(vs@)),
{
    let mut out: Vec<String> = Vec::new();
    let mut i: usize = 0;
    while i < vs.len()
        invariant
            i <= vs.len(),
            out@.len() == i,
            forall|k: int| 0 <= k < i ==> (#[trigger] out@[k])@ == normalised(vs@[k]@),
        decreases vs.len() - i,
    {
        out.push(normalise(vs[i].as_str()));
        i = i + 1;
    }
    assert(texts(out@) =~= normalised_all(texts(vs@)));
    out
}

fn tokens_of_values(vs: &Vec<String>) -> (r: Vec<String>)
    ensures
        texts(r@) == tokens_of(texts(vs@)),
{
    let mut out: Vec<String> = Vec::new();
    let mut i: usize = 0;
    assert(texts(vs@).take(0) =~= Seq::<Seq<char>>::empty());
    while i < vs.len()
        invariant
            i <= vs.len(),
            texts(out@) == tokens_of(texts(vs@).take(i as int)),
        decreases vs.len() - i,
    {
        let more = tokenise(vs[i].as_str());
        append_texts(&mut out, more);
        assert(texts(vs@).take(i + 1).drop_last() =~= texts(vs@).take(i as int));
        i = i + 1;
    }
    assert(texts(vs@).take(vs.len() as int) =~= texts(vs@));
    out
}

fn distinct_sorted_of(v: Vec<String>) -> (r: Vec<String>)
    ensures
        texts(r@) == distinct_sorted(texts(v@)),
{
    dedup_texts(sort_texts(v))
}

fn alias_keys_of(raw: &Vec<String>, canonical: &String) -> (r: Vec<String>)
    ensures
        texts(r@) == alias_keys(texts(raw@), canonical@),
{
    broadcast use vstd::seq_lib::group_filter_ensures;
    let ghost all = texts(raw@);
    let mut kept: Vec<String> = Vec::new();
    let mut i: usize = 0;
    proof {
        reveal(Seq::filter);
        assert(all.take(0).filter(kept_alias(canonical@)) =~= Seq::<Seq<char>>::empty());
        assert(texts(kept@) =~= Seq::<Seq<char>>::empty());
    }
    while i < raw.len()
        invariant
            i <= raw.len(),
            all == texts(raw@),
            texts(kept@) == all.take(i as int).filter(kept_alias(canonical@)),
        decreases raw.len() - i,
    {
        let a = &raw[i];
        proof {
            assert(all.take(i + 1) =~= all.take(i as int).push(a@));
            all.take(i as int).lemma_filter_push(a@, kept_alias(canonical@));
        }
        if a.as_str().unicode_len() > 0 && !crate::text::str_equal(a.as_str(), canonical.as_str()) {
            let ghost before = kept@;
            kept.push(a.clone());
            assert(texts(kept@) =~= texts(before).push(a@));
        }
        i = i + 1;
    }
    assert(all.take(raw.len() as int) =~= all);
    distinct_sorted_of(kept)
}

/// What a glossary term offers a scorer: its normalised canonical name,
/// its alias keys and the distinct word tokens of its description.
#[derive(Debug, Clone, PartialEq, Eq)]
pub struct TermSignals {
    pub canonical: String,
    pub aliases: Vec<String>,
    pub description_tokens: Vec<String>,
}

/// What a property offers a scorer: its normalised name, its alias keys
/// and the distinct word tokens of its description and business context.
#[derive(Debug, Clone, PartialEq, Eq)]
pub struct PropertySignals {
    pub canonical: String,
    pub aliases: Vec<String>,
    pub description_tokens: Vec<String>,
    pub business_context_tokens: Vec<String>,
}

/// The alternative names of a term, normalised: its aliases, then the
/// values of its label and of its display name.
pub open spec fn term_alias_sources(t: GlossaryTermDef) -> Seq<Seq<char>> {
    normalised_all(labels_values(models(t.aliases@)) + label_values(t.term@) + label_values(t.display_name@))
}

/// The alternative names of a property, normalised: its aliases, then
/// the values of its display name.
pub open spec fn property_alias_sources(p: PropertyDef) -> Seq<Seq<char>> {
    normalised_all(labels_values(models(p.aliases@)) + label_values(p.display_name@))
}

impl TermSignals {
    /// The signals of a term. The canonical key is the default label,
    /// normalised, so it does not move when translations change.
    pub fn from_term(term: &GlossaryTermDef) -> (r: TermSignals)
        ensures
            r.canonical@ == normalised(term.term.en@),
            texts(r.aliases@) == alias_keys(term_alias_sources(*term), r.canonical@),
            texts(r.description_tokens@) == distinct_sorted(tokens_of(label_values(term.description@))),
    {
        let canonical = normalise(term.term.en.as_str());
        let mut raw = labels_values_of(&term.aliases);
        append_texts(&mut raw, localized_values(&term.term));
        append_texts(&mut raw, localized_values(&term.display_name));
        let normal = normalise_all(&raw);
        let aliases = alias_keys_of(&normal, &canonical);
        let description_tokens = distinct_sorted_of(tokens_of_values(&localized_values(&term.description)));
        TermSignals { canonical, aliases, description_tokens }
    }
}

impl PropertySignals {
    /// The signals of a property.
    pub fn from_property(prop: &PropertyDef) -> (r: PropertySignals)
        ensures
            r.canonical@ == normalised(prop.name@),
            texts(r.aliases@) == alias_keys(property_alias_sources(*prop), r.canonical@),
            texts(r.description_tokens@) == distinct_sorted(tokens_of(text_values(prop.description@))),
            texts(r.business_context_tokens@) == distinct_sorted(tokens_of(label_values(prop.business_context@))),
    {
        let canonical = normalise(prop.name.as_str());
        let mut raw = labels_values_of(&prop.aliases);
        append_texts(&mut raw, localized_values(&prop.display_name));
        let normal = normalise_all(&raw);
        let aliases = alias_keys_of(&normal, &canonical);
        let description_tokens = distinct_sorted_of(tokens_of_values(&text_values_of(prop.description.as_str())));
        let business_context_tokens = distinct_sorted_of(tokens_of_values(&localized_values(&prop.business_context)));
        PropertySignals { canonical, aliases, description_tokens, business_context_tokens }
    }
}


/// A term alias that hits the property: it is the property's name or one
/// of its aliases.
pub open spec fn hits_property(pc: Seq<char>, pa: Seq<Seq<char>>) -> spec_fn(Seq<char>) -> bool {
    |a: Seq<char>| a == pc || pa.contains(a)
}

/// A property alias that hits the term: it is the term's name or one of
/// its aliases.
pub open spec fn hits_term(tc: Seq<char>, ta: Seq<Seq<char>>) -> spec_fn(Seq<char>) -> bool {
    |a: Seq<char>| a == tc || ta.contains(a)
}

/// The alias through which a term and a property meet: the first term
/// alias hitting the property, else the first property alias hitting the
/// term, else the property's name when the term matches it as text.
pub open spec fn alias_meeting(
    tc: Seq<char>,
    ta: Seq<Seq<char>>,
    raw: GlossaryTermDef,
    pc: Seq<char>,
    pa: Seq<Seq<char>>,
) -> Option<Seq<char>> {
    match first_match(ta, hits_property(pc, pa)) {
        Some(i) => Some(ta[i]),
        None => match first_match(pa, hits_term(tc, ta)) {
            Some(j) => Some(pa[j]),
            None => if term_matches(raw, pc) {
                Some(pc)
            } else {
                None
            },
        },
    }
}

fn first_hit(candidates: &Vec<String>, name: &String, others: &Vec<String>) -> (r: Option<usize>)
    ensures
        match r {
            Some(i) => first_match(texts(candidates@), hits_property(name@, texts(others@))) == Some(
                i as int,
            ),
            None => first_match(texts(candidates@), hits_property(name@, texts(others@))) is None,
        },
        r matches Some(i) ==> i < candidates@.len(),
{
    let ghost p = hits_property(name@, texts(others@));
    let mut i: usize = 0;
    while i < candidates.len()
        invariant
            i <= candidates.len(),
            p == hits_property(name@, texts(others@)),
            forall|j: int| 0 <= j < i ==> !p(#[trigger] texts(candidates@)[j]),
        decreases candidates.len() - i,
    {
        let a = &candidates[i];
        if crate::text::str_equal(a.as_str(), name.as_str()) || crate::model::contains_text(others, a.as_str()) {
            proof {
                assert(p(texts(candidates@)[i as int]));
                lemma_first_match_scan(texts(candidates@), p, i as int);
            }
            return Some(i);
        }
        assert(!p(texts(candidates@)[i as int]));
        i = i + 1;
    }
    proof {
        lemma_first_match_scan(texts(candidates@), p, i as int);
    }
    None
}

/// The alias through which a term and a property meet, if any.
pub fn alias_match(term: &TermSignals, raw_term: &GlossaryTermDef, property: &PropertySignals) -> (r: Option<String>)
    ensures
        match r {
            Some(m) => alias_meeting(
                term.canonical@,
                texts(term.aliases@),
                *raw_term,
                property.canonical@,
                texts(property.aliases@),
            ) == Some(m@),
            None => alias_meeting(
                term.canonical@,
                texts(term.aliases@),
                *raw_term,
                property.canonical@,
                texts(property.aliases@),
            ) is None,
        },
{
    if let Some(i) = first_hit(&term.aliases, &property.canonical, &property.aliases) {
        return Some(term.aliases[i].clone());
    }
    assert(hits_property(term.canonical@, texts(term.aliases@)) =~= hits_term(term.canonical@, texts(term.aliases@)));
    if let Some(j) = first_hit(&property.aliases, &term.canonical, &term.aliases) {
        return Some(property.aliases[j].clone());
    }
    if raw_term.matches_text(property.canonical.as_str()) {
        return Some(property.canonical.clone());
    }
    None
}

/// The tokens of `ts` found in `a` or in `b`.
pub open spec fn shared_tokens(ts: Seq<Seq<char>>, a: Seq<Seq<char>>, b: Seq<Seq<char>>) -> Seq<Seq<char>> {
    ts.filter(|t: Seq<char>| a.contains(t) || b.contains(t))
}

/// How many of the term's description tokens the property's description
/// or business context holds, and how many the term has.
#[verifier::truncate]
pub fn description_overlap(term: &TermSignals, property: &PropertySignals) -> (r: (u32, u32))
    ensures
        r.0 == shared_tokens(
            texts(term.description_tokens@),
            texts(property.description_tokens@),
            texts(property.business_context_tokens@),
        ).len() as u32,
        r.1 == term.description_tokens@.len() as u32,
{
    broadcast use vstd::seq_lib::group_filter_ensures;
    let ghost ts = texts(term.description_tokens@);
    let ghost a = texts(property.description_tokens@);
    let ghost b = texts(property.business_context_tokens@);
    let mut shared: usize = 0;
    let mut i: usize = 0;
    proof {
        reveal(Seq::filter);
        assert(ts.take(0).filter(|t: Seq<char>| a.contains(t) || b.contains(t)) =~= Seq::<Seq<char>>::empty());
    }
    while i < term.description_tokens.len()
        invariant
            i <= ts.len(),
            ts == texts(term.description_tokens@),
            a == texts(property.description_tokens@),
            b == texts(property.business_context_tokens@),
            shared == ts.take(i as int).filter(|t: Seq<char>| a.contains(t) || b.contains(t)).len(),
            shared <= i,
        decreases ts.len() - i,
    {
        let t = &term.description_tokens[i];
        proof {
            assert(ts.take(i + 1) =~= ts.take(i as int).push(t@));
            ts.take(i as int).lemma_filter_push(t@, |t: Seq<char>| a.contains(t) || b.contains(t));
        }
        if crate::model::contains_text(&property.description_tokens, t.as_str())
            || crate::model::contains_text(&property.business_context_tokens, t.as_str()) {
            shared = shared + 1;
        }
        i = i + 1;
    }
    assert(ts.take(ts.len() as int) =~= ts);
    (shared as u32, term.description_tokens.len() as u32)
}

/// The bigrams of `a` that also occur in `b`, counted in `a`.
pub open spec fn shared_bigrams(a: Seq<char>, b: Seq<char>) -> Seq<(char, char)> {
    bigram_seq(a).filter(|bg: (char, char)| bigram_seq(b).contains(bg))
}

/// How the names of a term and a property compare: identical canonical
/// names, an alias they meet through, or (for a similarity score) the
/// number of shared bigrams and the bigram counts of the two names.
#[derive(Debug, Clone, PartialEq, Eq)]
pub enum NameEvidence {
    Canonical,
    Alias { matched: String },
    Bigrams { shared: usize, term_bigrams: usize, property_bigrams: usize },
}

/// The name evidence of a term against a property.
pub open spec fn name_evidence_of(
    tc: Seq<char>,
    ta: Seq<Seq<char>>,
    raw: GlossaryTermDef,
    pc: Seq<char>,
    pa: Seq<Seq<char>>,
) -> NameEvidenceModel {
    if tc.len() > 0 && tc == pc {
        NameEvidenceModel::Canonical
    } else {
        match alias_meeting(tc, ta, raw, pc, pa) {
            Some(m) => NameEvidenceModel::Alias(m),
            None => NameEvidenceModel::Bigrams(
                shared_bigrams(tc, pc).len(),
                bigram_seq(tc).len(),
                bigram_seq(pc).len(),
            ),
        }
    }
}

/// Model of a [`NameEvidence`].
pub enum NameEvidenceModel {
    Canonical,
    Alias(Seq<char>),
    Bigrams(nat, nat, nat),
}

impl View for NameEvidence {
    type V = NameEvidenceModel;

    open spec fn view(&self) -> NameEvidenceModel {
        match self {
            NameEvidence::Canonical => NameEvidenceModel::Canonical,
            NameEvidence::Alias { matched } => NameEvidenceModel::Alias(matched@),
            NameEvidence::Bigrams { shared, term_bigrams, property_bigrams } => NameEvidenceModel::Bigrams(
                *shared as nat,
                *term_bigrams as nat,
                *property_bigrams as nat,
            ),
        }
    }
}

fn count_shared_bigrams(a: &Vec<(char, char)>, b: &Vec<(char, char)>) -> (r: usize)
    ensures
        r == a@.filter(|bg: (char, char)| b@.contains(bg)).len(),
{
    broadcast use vstd::seq_lib::group_filter_ensures;
    let mut shared: usize = 0;
    let mut i: usize = 0;
    proof {
        reveal(Seq::filter);
        assert(a@.take(0).filter(|bg: (char, char)| b@.contains(bg)) =~= Seq::<(char, char)>::empty());
    }
    while i < a.len()
        invariant
            i <= a@.len(),
            shared == a@.take(i as int).filter(|bg: (char, char)| b@.contains(bg)).len(),
            shared <= i,
        decreases a@.len() - i,
    {
        let x = a[i];
        proof {
            assert(a@.take(i + 1) =~= a@.take(i as int).push(x));
            a@.take(i as int).lemma_filter_push(x, |bg: (char, char)| b@.contains(bg));
        }
        let mut found = false;
        let mut j: usize = 0;
        while j < b.len()
            invariant
                j <= b@.len(),
                found == exists|k: int| 0 <= k < j && b@[k] == x,
            decreases b@.len() - j,
        {
            if b[j].0 == x.0 && b[j].1 == x.1 {
                found = true;
            }
            j = j + 1;
        }
        if found {
            shared = shared + 1;
        }
        i = i + 1;
    }
    assert(a@.take(a@.len() as int) =~= a@);
    shared
}

/// How the names of a term and a property compare.
pub fn name_evidence(term: &TermSignals, raw_term: &GlossaryTermDef, property: &PropertySignals) -> (r: NameEvidence)
    ensures
        r@ == name_evidence_of(
            term.canonical@,
            texts(term.aliases@),
            *raw_term,
            property.canonical@,
            texts(property.aliases@),
        ),
{
    if term.canonical.as_str().unicode_len() > 0 && crate::text::str_equal(
        term.canonical.as_str(),
        property.canonical.as_str(),
    ) {
        return NameEvidence::Canonical;
    }
    match alias_match(term, raw_term, property) {
        Some(matched) => NameEvidence::Alias { matched },
        None => {
            let a = bigrams(term.canonical.as_str());
            let b = bigrams(property.canonical.as_str());
            let shared = count_shared_bigrams(&a, &b);
            NameEvidence::Bigrams { shared, term_bigrams: a.len(), property_bigrams: b.len() }
        },
    }
}

/// The property a reference names: the owner found by id, then the
/// property on it.
pub open spec fn located(m: OntologyModel, owner: PropertyOwnerRef, pid: Seq<char>) -> Option<PropertyModel> {
    match owner {
        PropertyOwnerRef::Node { node_type, .. } => match first_match(m.node_types, key_is::<NodeTypeDef>(node_type@)) {
            Some(i) => match first_match(m.node_types[i].properties, key_is::<PropertyDef>(pid)) {
                Some(k) => Some(m.node_types[i].properties[k]),
                None => None,
            },
            None => None,
        },
        PropertyOwnerRef::Edge { edge_type, .. } => match first_match(m.edge_types, key_is::<EdgeTypeDef>(edge_type@)) {
            Some(i) => match first_match(m.edge_types[i].properties, key_is::<PropertyDef>(pid)) {
                Some(k) => Some(m.edge_types[i].properties[k]),
                None => None,
            },
            None => None,
        },
    }
}

/// The property an owner reference and a property id name, if both exist.
pub fn locate_property<'a>(ontology: &'a OntologyIR, owner: &PropertyOwnerRef, property_id: &str) -> (r: Option<&'a PropertyDef>)
    ensures
        match r {
            Some(p) => located(ontology@, *owner, property_id@) == Some(p@),
            None => located(ontology@, *owner, property_id@) is None,
        },
{
    match owner {
        PropertyOwnerRef::Node { node_type, .. } => match position_of(&ontology.node_types, node_type.as_str()) {
            Some(i) => {
                let node = &ontology.node_types[i];
                match position_of(&node.properties, property_id) {
                    Some(k) => Some(&node.properties[k]),
                    None => None,
                }
            },
            None => None,
        },
        PropertyOwnerRef::Edge { edge_type, .. } => match position_of(&ontology.edge_types, edge_type.as_str()) {
            Some(i) => {
                let edge = &ontology.edge_types[i];
                match position_of(&edge.properties, property_id) {
                    Some(k) => Some(&edge.properties[k]),
                    None => None,
                }
            },
            None => None,
        },
    }
}

} // verus!
