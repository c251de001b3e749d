//! Column profiles: the per-column distribution snapshot a source scan
//! produced, kept in the ontology and keyed by its location
//! `(source, relation, column)`.

use vstd::prelude::*;

use crate::model::{copy_opt_text, copy_texts, opt_text, texts, DeepCopy};

verus! {

/// Distribution statistics of one column, as the source scan reports
/// them.
#[derive(Debug, Clone, PartialEq, Eq)]
pub struct ColumnStats {
    pub column_name: String,
    pub null_count: u64,
    pub distinct_count: u64,
    pub sample_values: Vec<String>,
    pub min_value: Option<String>,
    pub max_value: Option<String>,
    pub pii_redacted: Option<bool>,
}

/// Model of [`ColumnStats`].
pub struct ColumnStatsModel {
    pub column_name: Seq<char>,
    pub null_count: u64,
    pub distinct_count: u64,
    pub sample_values: Seq<Seq<char>>,
    pub min_value: Option<Seq<char>>,
    pub max_value: Option<Seq<char>>,
    pub pii_redacted: Option<bool>,
}

impl View for ColumnStats {
    type V = ColumnStatsModel;

    open spec fn view(&self) -> ColumnStatsModel {
        ColumnStatsModel {
            column_name: self.column_name@,
            null_count: self.null_count,
            distinct_count: self.distinct_count,
            sample_values: texts(self.sample_values@),
            min_value: opt_text(self.min_value),
            max_value: opt_text(self.max_value),
            pii_redacted: self.pii_redacted,
        }
    }
}

impl DeepCopy for ColumnStats {
    fn deep_copy(&self) -> (r: ColumnStats) {
        ColumnStats {
            column_name: self.column_name.clone(),
            null_count: self.null_count,
            distinct_count: self.distinct_count,
            sample_values: copy_texts(&self.sample_values),
            min_value: copy_opt_text(&self.min_value),
            max_value: copy_opt_text(&self.max_value),
            pii_redacted: self.pii_redacted,
        }
    }
}

/// Profile of one table: its name, row count and per-column statistics.
#[derive(Debug, Clone, PartialEq, Eq)]
pub struct TableProfile {
    pub table_name: String,
    pub row_count: u64,
    pub column_stats: Vec<ColumnStats>,
}

/// Profile of a whole source, table by table.
#[derive(Debug, Clone, PartialEq, Eq)]
pub struct SourceProfile {
    pub table_profiles: Vec<TableProfile>,
}

/// One column's snapshot, located in a source and stamped with the
/// instant (seconds since the Unix epoch) it was sampled at.
#[derive(Debug, Clone, PartialEq, Eq)]
pub struct ColumnProfileDef {
    pub id: String,
    pub source_id: String,
    pub relation: String,
    pub column: String,
    pub stats: ColumnStats,
    pub sampled_at: i64,
}

/// Model of [`ColumnProfileDef`].
pub struct ColumnProfileModel {
    pub id: Seq<char>,
    pub source_id: Seq<char>,
    pub relation: Seq<char>,
    pub column: Seq<char>,
    pub stats: ColumnStatsModel,
    pub sampled_at: i64,
}

impl View for ColumnProfileDef {
    type V = ColumnProfileModel;

    open spec fn view(&self) -> ColumnProfileModel {
        ColumnProfileModel {
            id: self.id@,
            source_id: self.source_id@,
            relation: self.relation@,
            column: self.column@,
            stats: self.stats@,
            sampled_at: self.sampled_at,
        }
    }
}

/// The id of a location: `cp:<source>:<relation>:<column>`.
pub open spec fn location_id(source_id: Seq<char>, relation: Seq<char>, column: Seq<char>) -> Seq<char> {
    seq!['c', 'p', ':'] + source_id + seq![':'] + relation + seq![':'] + column
}

/// The entry a profiled column becomes.
pub open spec fn column_entry(source_id: Seq<char>, table: Seq<char>, stats: ColumnStatsModel, at: i64) -> ColumnProfileModel {
    ColumnProfileModel {
        id: location_id(source_id, table, stats.column_name),
        source_id,
        relation: table,
        column: stats.column_name,
        stats,
        sampled_at: at,
    }
}

/// The entries of one table, column by column.
pub open spec fn table_entries(source_id: Seq<char>, t: TableProfile, at: i64) -> Seq<ColumnProfileModel> {
    t.column_stats@.map_values(|c: ColumnStats| column_entry(source_id, t.table_name@, c@, at))
}

/// The entries of a run of tables, table by table.
pub open spec fn profile_entries(source_id: Seq<char>, ts: Seq<TableProfile>, at: i64) -> Seq<ColumnProfileModel>
    decreases ts.len(),
{
    if ts.len() == 0 {
        Seq::empty()
    } else {
        profile_entries(source_id, ts.drop_last(), at) + table_entries(source_id, ts.last(), at)
    }
}

fn append_text(out: &mut String, s: &str)
    ensures
        final(out)@ == old(out)@ + s@,
{
    out.append(s);
}

impl ColumnProfileDef {
    /// The id of the location `(source_id, relation, column)`; profiling
    /// the same location again yields the same id.
    pub fn make_id(source_id: &str, relation: &str, column: &str) -> (r: String)
        ensures
            r@ == location_id(source_id@, relation@, column@),
    {
        let mut out = String::new();
        let sep = ":";
        proof {
            reveal_strlit(":");
            reveal_strlit("cp:");
        }
        append_text(&mut out, "cp:");
        append_text(&mut out, source_id);
        append_text(&mut out, sep);
        append_text(&mut out, relation);
        append_text(&mut out, sep);
        append_text(&mut out, column);
        assert(out@ =~= location_id(source_id@, relation@, column@));
        out
    }
}

/// One entry per profiled column, tables in order and columns in order
/// within each table, all located in `source_id` and stamped `sampled_at`.
pub fn profile_to_column_defs(source_id: &String, profile: &SourceProfile, sampled_at: i64) -> (r: Vec<ColumnProfileDef>)
    ensures
        r@.map_values(|e: ColumnProfileDef| e@) == profile_entries(source_id@, profile.table_profiles@, sampled_at),
{
    let ghost ts = profile.table_profiles@;
    let mut out: Vec<ColumnProfileDef> = Vec::new();
    let mut i: usize = 0;
    while i < profile.table_profiles.len()
        invariant
            i <= ts.len(),
            ts == profile.table_profiles@,
            out@.map_values(|e: ColumnProfileDef| e@) == profile_entries(source_id@, ts.take(i as int), sampled_at),
        decreases ts.len() - i,
    {
        let table = &profile.table_profiles[i];
        let ghost start = out@.map_values(|e: ColumnProfileDef| e@);
        let mut j: usize = 0;
        while j < table.column_stats.len()
            invariant
                j <= table.column_stats.len(),
                out@.map_values(|e: ColumnProfileDef| e@) == start + table_entries(source_id@, *table, sampled_at).take(j as int),
            decreases table.column_stats.len() - j,
        {
            let stats = &table.column_stats[j];
            let entry = ColumnProfileDef {
                id: ColumnProfileDef::make_id(source_id.as_str(), table.table_name.as_str(), stats.column_name.as_str()),
                source_id: source_id.clone(),
                relation: table.table_name.clone(),
                column: stats.column_name.clone(),
                stats: stats.deep_copy(),
                sampled_at,
            };
            let ghost before = out@;
            out.push(entry);
            assert(out@.map_values(|e: ColumnProfileDef| e@) =~= before.map_values(|e: ColumnProfileDef| e@).push(
                entry@,
            ));
            assert(table_entries(source_id@, *table, sampled_at).take(j + 1) =~= table_entries(
                source_id@,
                *table,
                sampled_at,
            ).take(j as int).push(column_entry(source_id@, table.table_name@, stats@, sampled_at)));
            j = j + 1;
        }
        assert(table_entries(source_id@, *table, sampled_at).take(table.column_stats.len() as int) =~= table_entries(
            source_id@,
            *table,
            sampled_at,
        ));
        assert(ts.take(i + 1).drop_last() =~= ts.take(i as int));
        i = i + 1;
    }
    assert(ts.take(ts.len() as int) =~= ts);
    out
}

/// Distinct locations get distinct ids, as long as no part of a location
/// holds the separator `:`.
pub proof fn lemma_location_id_injective(s1: Seq<char>, r1: Seq<char>, c1: Seq<char>, s2: Seq<char>, r2: Seq<char>, c2: Seq<char>)
    requires
        !s1.contains(':'),
        !r1.contains(':'),
        !c1.contains(':'),
        !s2.contains(':'),
        !r2.contains(':'),
        !c2.contains(':'),
        location_id(s1, r1, c1) == location_id(s2, r2, c2),
    ensures
        s1 == s2,
        r1 == r2,
        c1 == c2,
{
    let p = seq!['c', 'p', ':'];
    let t1 = s1 + seq![':'] + r1 + seq![':'] + c1;
    let t2 = s2 + seq![':'] + r2 + seq![':'] + c2;
    assert(location_id(s1, r1, c1) =~= p + t1);
    assert(location_id(s2, r2, c2) =~= p + t2);
    assert(t1 =~= (p + t1).subrange(3, (p + t1).len() as int));
    assert(t2 =~= (p + t2).subrange(3, (p + t2).len() as int));
    assert(t1 == t2);
    assert(t1 =~= s1 + seq![':'] + (r1 + seq![':'] + c1));
    assert(t2 =~= s2 + seq![':'] + (r2 + seq![':'] + c2));
    lemma_split_at_separator(s1, r1 + seq![':'] + c1, s2, r2 + seq![':'] + c2);
    lemma_split_at_separator(r1, c1, r2, c2);
}

/// A text without the separator, the separator and a tail: the first
/// separator splits it back into its two parts.
proof fn lemma_split_at_separator(x1: Seq<char>, t1: Seq<char>, x2: Seq<char>, t2: Seq<char>)
    requires
        !x1.contains(':'),
        !x2.contains(':'),
        x1 + seq![':'] + t1 == x2 + seq![':'] + t2,
    ensures
        x1 == x2,
        t1 == t2,
{
    let a = x1 + seq![':'] + t1;
    let b = x2 + seq![':'] + t2;
    if x1.len() < x2.len() {
        assert(a[x1.len() as int] == ':');
        assert(b[x1.len() as int] == x2[x1.len() as int]);
        assert(x2.contains(x2[x1.len() as int]));
    } else if x2.len() < x1.len() {
        assert(b[x2.len() as int] == ':');
        assert(a[x2.len() as int] == x1[x2.len() as int]);
        assert(x1.contains(x1[x2.len() as int]));
    } else {
        assert(x1 =~= a.subrange(0, x1.len() as int));
        assert(x2 =~= b.subrange(0, x2.len() as int));
        assert(t1 =~= a.subrange(x1.len() as int + 1, a.len() as int));
        assert(t2 =~= b.subrange(x2.len() as int + 1, b.len() as int));
    }
}

} // verus!
