//! Design-action gating: the conditions an operator must satisfy before
//! moving from analysis review to ontology design.
//!
//! [`evaluate_design_gates`] emits one gate per applicable condition
//! (ambiguous columns clarified, partial analysis acknowledged, large
//! schema acknowledged), in that order. [`design_allowed`] holds exactly
//! when no blocking gate is unmet, and [`unmet_blocking_gates`] lists the
//! ones that are.

use vstd::prelude::*;

use crate::text::{decimal, decimal_string, str_equal};
use vstd::string::StringExecFns;

verus! {

/// Schemas with at least this many tables need an explicit
/// acknowledgement before design.
pub const LARGE_SCHEMA_GATE_THRESHOLD: usize = 100;

/// A column of the analysed source.
#[derive(Debug, Clone, PartialEq, Eq)]
pub struct ColumnRef {
    pub relation: String,
    pub column: String,
}

impl ColumnRef {
    pub fn new(relation: &str, column: &str) -> (r: ColumnRef)
        ensures
            r.relation@ == relation@,
            r.column@ == column@,
    {
        ColumnRef { relation: String::from_str(relation), column: String::from_str(column) }
    }
}

/// Whether the source analysis ran to completion.
#[derive(Debug, Clone, Copy, PartialEq, Eq, Structural, Default)]
pub enum AnalysisCompleteness {
    #[default]
    Complete,
    Partial,
}

/// The analyser's note that the schema is large.
#[derive(Debug, Clone, Copy, PartialEq, Eq, Structural)]
pub struct LargeSchemaWarning {
    pub table_count: usize,
    pub recommended_max: usize,
}

/// What design gating reads of a source analysis: the columns flagged
/// as ambiguous, the large-schema note, completeness and warnings.
#[derive(Debug, Clone, PartialEq, Eq, Default)]
pub struct SourceAnalysisReport {
    pub ambiguous_columns: Vec<ColumnRef>,
    pub large_schema_warning: Option<LargeSchemaWarning>,
    pub analysis_completeness: AnalysisCompleteness,
    pub analysis_warnings: Vec<String>,
}

impl SourceAnalysisReport {
    /// The analysis stopped before completing.
    pub fn is_partial(&self) -> (r: bool)
        ensures
            r == (self.analysis_completeness == AnalysisCompleteness::Partial),
    {
        match self.analysis_completeness {
            AnalysisCompleteness::Partial => true,
            AnalysisCompleteness::Complete => false,
        }
    }
}

/// An operator's explanation of an ambiguous column.
#[derive(Debug, Clone, PartialEq, Eq, Default)]
pub struct ColumnClarification {
    pub table: String,
    pub column: String,
    pub hint: String,
}

/// Operator choices for the design action.
#[derive(Debug, Clone, PartialEq, Eq, Default)]
pub struct DesignOptions {
    pub column_clarifications: Vec<ColumnClarification>,
    pub partial_analysis_acknowledged: bool,
    pub large_schema_acknowledged: bool,
}

/// Stable identifier of a gate.
#[derive(Debug, Clone, Copy, PartialEq, Eq, Hash, Structural)]
pub enum GateId {
    ColumnClarificationsResolved,
    PartialAnalysisAcknowledged,
    LargeSchemaAcknowledged,
}

/// Wire name of a gate id.
pub open spec fn gate_name(id: GateId) -> Seq<char> {
    match id {
        GateId::ColumnClarificationsResolved => "column_clarifications_resolved"@,
        GateId::PartialAnalysisAcknowledged => "partial_analysis_acknowledged"@,
        GateId::LargeSchemaAcknowledged => "large_schema_acknowledged"@,
    }
}

impl GateId {
    /// Its name in the UI catalogue.
    pub fn as_str(self) -> (r: &'static str)
        ensures
            r@ == gate_name(self),
    {
        match self {
            GateId::ColumnClarificationsResolved => "column_clarifications_resolved",
            GateId::PartialAnalysisAcknowledged => "partial_analysis_acknowledged",
            GateId::LargeSchemaAcknowledged => "large_schema_acknowledged",
        }
    }
}

/// Whether a gate's condition holds.
#[derive(Debug, Clone, Copy, PartialEq, Eq, Structural)]
pub enum GateStatus {
    Met,
    Unmet,
}

/// One condition the operator must satisfy before designing. `params`
/// holds interpolation values for the UI, sorted by key; `anchor` is
/// the element to scroll to.
#[derive(Debug, Clone, PartialEq, Eq)]
pub struct DesignGate {
    pub id: GateId,
    pub status: GateStatus,
    pub blocks_design: bool,
    pub anchor: Option<String>,
    pub params: Vec<(String, String)>,
}

/// Model of a [`DesignGate`].
pub struct GateModel {
    pub id: GateId,
    pub status: GateStatus,
    pub blocks_design: bool,
    pub anchor: Option<Seq<char>>,
    pub params: Seq<(Seq<char>, Seq<char>)>,
}

impl View for DesignGate {
    type V = GateModel;

    open spec fn view(&self) -> GateModel {
        GateModel {
            id: self.id,
            status: self.status,
            blocks_design: self.blocks_design,
            anchor: match self.anchor {
                Some(a) => Some(a@),
                None => None,
            },
            params: param_models(self.params@),
        }
    }
}

/// Models of parameter pairs.
pub open spec fn param_models(ps: Seq<(String, String)>) -> Seq<(Seq<char>, Seq<char>)> {
    ps.map_values(|p: (String, String)| (p.0@, p.1@))
}

/// Models of gates.
pub open spec fn gate_models(gs: Seq<DesignGate>) -> Seq<GateModel> {
    gs.map_values(|g: DesignGate| g@)
}

/// First value under `key` in a parameter list.
pub open spec fn param_value(ps: Seq<(Seq<char>, Seq<char>)>, key: Seq<char>) -> Option<Seq<char>>
    decreases ps.len(),
{
    if ps.len() == 0 {
        None
    } else if ps[0].0 == key {
        Some(ps[0].1)
    } else {
        param_value(ps.drop_first(), key)
    }
}

impl DesignGate {
    /// The value of an interpolation parameter.
    pub fn param(&self, key: &str) -> (r: Option<&String>)
        ensures
            match r {
                Some(v) => param_value(self@.params, key@) == Some(v@),
                None => param_value(self@.params, key@) is None,
            },
    {
        let ghost ps = self@.params;
        assert(ps.subrange(0, ps.len() as int) =~= ps);
        let mut i: usize = 0;
        while i < self.params.len()
            invariant
                i <= self.params.len(),
                ps == self@.params,
                ps.len() == self.params.len(),
                param_value(ps, key@) == param_value(ps.subrange(i as int, ps.len() as int), key@),
            decreases self.params.len() - i,
        {
            proof {
                let rest = ps.subrange(i as int, ps.len() as int);
                assert(rest[0] == ps[i as int]);
                assert(rest.drop_first() =~= ps.subrange(i + 1, ps.len() as int));
            }
            if str_equal(self.params[i].0.as_str(), key) {
                return Some(&self.params[i].1);
            }
            i = i + 1;
        }
        None
    }
}

// ---------------------------------------------------------------------------
// Evaluation
// ---------------------------------------------------------------------------

/// An operator clarification names the column.
pub open spec fn clarified(c: ColumnRef, cs: Seq<ColumnClarification>) -> bool {
    exists|k: int|
        0 <= k < cs.len() && (#[trigger] cs[k]).table@ == c.relation@ && cs[k].column@
            == c.column@
}

/// Ambiguous columns without a clarification.
pub open spec fn pending_count(amb: Seq<ColumnRef>, cs: Seq<ColumnClarification>) -> nat
    decreases amb.len(),
{
    if amb.len() == 0 {
        0
    } else {
        pending_count(amb.subrange(0, amb.len() - 1), cs) + if clarified(amb[amb.len() - 1], cs) {
            0nat
        } else {
            1nat
        }
    }
}

/// Met when the condition holds.
pub open spec fn status_of(ok: bool) -> GateStatus {
    if ok {
        GateStatus::Met
    } else {
        GateStatus::Unmet
    }
}

/// The clarification gate, present when some column is ambiguous.
pub open spec fn clarification_gate(r: SourceAnalysisReport, o: DesignOptions) -> Seq<GateModel> {
    let amb = r.ambiguous_columns@;
    if amb.len() == 0 {
        Seq::empty()
    } else {
        let pending = pending_count(amb, o.column_clarifications@);
        seq![
            GateModel {
                id: GateId::ColumnClarificationsResolved,
                status: status_of(pending == 0),
                blocks_design: true,
                anchor: Some("review-clarifications"@),
                params: seq![
                    ("pending_count"@, decimal(pending)),
                    ("total_count"@, decimal(amb.len())),
                ],
            },
        ]
    }
}

/// The partial-analysis gate, present when the analysis is partial.
pub open spec fn partial_gate(r: SourceAnalysisReport, o: DesignOptions) -> Seq<GateModel> {
    if r.analysis_completeness == AnalysisCompleteness::Partial {
        seq![
            GateModel {
                id: GateId::PartialAnalysisAcknowledged,
                status: status_of(o.partial_analysis_acknowledged),
                blocks_design: true,
                anchor: Some("review-partial-acknowledgement"@),
                params: seq![("warning_count"@, decimal(r.analysis_warnings@.len()))],
            },
        ]
    } else {
        Seq::empty()
    }
}

/// The large-schema gate, present when the schema has at least
/// [`LARGE_SCHEMA_GATE_THRESHOLD`] tables.
pub open spec fn large_schema_gate(r: SourceAnalysisReport, o: DesignOptions) -> Seq<GateModel> {
    match r.large_schema_warning {
        Some(w) => if w.table_count >= LARGE_SCHEMA_GATE_THRESHOLD {
            seq![
                GateModel {
                    id: GateId::LargeSchemaAcknowledged,
                    status: status_of(o.large_schema_acknowledged),
                    blocks_design: true,
                    anchor: Some("review-large-schema-acknowledgement"@),
                    params: seq![
                        ("table_count"@, decimal(w.table_count as nat)),
                        ("threshold"@, decimal(LARGE_SCHEMA_GATE_THRESHOLD as nat)),
                    ],
                },
            ]
        } else {
            Seq::empty()
        },
        None => Seq::empty(),
    }
}

/// The gates that apply, in their fixed order.
pub open spec fn gates_for(r: SourceAnalysisReport, o: DesignOptions) -> Seq<GateModel> {
    clarification_gate(r, o) + partial_gate(r, o) + large_schema_gate(r, o)
}

fn is_clarified(c: &ColumnRef, cs: &Vec<ColumnClarification>) -> (r: bool)
    ensures
        r == clarified(*c, cs@),
{
    let mut k: usize = 0;
    while k < cs.len()
        invariant
            k <= cs.len(),
            forall|j: int|
                0 <= j < k ==> !((#[trigger] cs@[j]).table@ == c.relation@ && cs@[j].column@
                    == c.column@),
        decreases cs.len() - k,
    {
        if str_equal(cs[k].table.as_str(), c.relation.as_str()) && str_equal(
            cs[k].column.as_str(),
            c.column.as_str(),
        ) {
            return true;
        }
        k = k + 1;
    }
    false
}

fn pair(key: &str, value: String) -> (r: (String, String))
    ensures
        r.0@ == key@,
        r.1@ == value@,
{
    (String::from_str(key), value)
}

fn gate(id: GateId, status: GateStatus, anchor: &str, params: Vec<(String, String)>) -> (r: DesignGate)
    ensures
        r@ == (GateModel {
            id,
            status,
            blocks_design: true,
            anchor: Some(anchor@),
            params: param_models(params@),
        }),
{
    DesignGate { id, status, blocks_design: true, anchor: Some(String::from_str(anchor)), params }
}

/// Every applicable gate, in order: column clarifications (when some
/// column is ambiguous), partial-analysis acknowledgement (when the
/// analysis is partial), large-schema acknowledgement (when the schema
/// reaches [`LARGE_SCHEMA_GATE_THRESHOLD`] tables).
pub fn evaluate_design_gates(report: &SourceAnalysisReport, options: &DesignOptions) -> (r: Vec<
    DesignGate,
>)
    ensures
        gate_models(r@) == gates_for(*report, *options),
{
    let mut gates: Vec<DesignGate> = Vec::new();
    let ghost amb = report.ambiguous_columns@;
    let ghost cs = options.column_clarifications@;
    let n = report.ambiguous_columns.len();
    if n > 0 {
        let mut pending: usize = 0;
        let mut i: usize = 0;
        while i < n
            invariant
                n == report.ambiguous_columns.len(),
                amb == report.ambiguous_columns@,
                cs == options.column_clarifications@,
                i <= n,
                pending <= i,
                pending == pending_count(amb.subrange(0, i as int), cs),
            decreases n - i,
        {
            proof {
                let next = amb.subrange(0, i + 1);
                assert(next.subrange(0, i as int) =~= amb.subrange(0, i as int));
                assert(next[i as int] == amb[i as int]);
            }
            if !is_clarified(&report.ambiguous_columns[i], &options.column_clarifications) {
                pending = pending + 1;
            }
            i = i + 1;
        }
        proof {
            assert(amb.subrange(0, n as int) =~= amb);
        }
        let mut params: Vec<(String, String)> = Vec::new();
        params.push(pair("pending_count", decimal_string(pending as u64)));
        params.push(pair("total_count", decimal_string(n as u64)));
        assert(param_models(params@) =~= seq![
            ("pending_count"@, decimal(pending_count(amb, cs))),
            ("total_count"@, decimal(amb.len())),
        ]);
        let status = if pending == 0 {
            GateStatus::Met
        } else {
            GateStatus::Unmet
        };
        gates.push(gate(GateId::ColumnClarificationsResolved, status, "review-clarifications", params));
    }
    let ghost g1 = gates@;
    if report.is_partial() {
        let mut params: Vec<(String, String)> = Vec::new();
        params.push(pair("warning_count", decimal_string(report.analysis_warnings.len() as u64)));
        assert(param_models(params@) =~= seq![
            ("warning_count"@, decimal(report.analysis_warnings@.len())),
        ]);
        let status = if options.partial_analysis_acknowledged {
            GateStatus::Met
        } else {
            GateStatus::Unmet
        };
        gates.push(
            gate(GateId::PartialAnalysisAcknowledged, status, "review-partial-acknowledgement", params),
        );
    }
    let ghost g2 = gates@;
    match report.large_schema_warning {
        Some(w) => {
            if w.table_count >= LARGE_SCHEMA_GATE_THRESHOLD {
                let mut params: Vec<(String, String)> = Vec::new();
                params.push(pair("table_count", decimal_string(w.table_count as u64)));
                params.push(
                    pair("threshold", decimal_string(LARGE_SCHEMA_GATE_THRESHOLD as u64)),
                );
                assert(param_models(params@) =~= seq![
                    ("table_count"@, decimal(w.table_count as nat)),
                    ("threshold"@, decimal(LARGE_SCHEMA_GATE_THRESHOLD as nat)),
                ]);
                let status = if options.large_schema_acknowledged {
                    GateStatus::Met
                } else {
                    GateStatus::Unmet
                };
                gates.push(
                    gate(
                        GateId::LargeSchemaAcknowledged,
                        status,
                        "review-large-schema-acknowledgement",
                        params,
                    ),
                );
            }
        },
        None => {},
    }
    proof {
        assert(gate_models(g1) =~= clarification_gate(*report, *options));
        assert(gate_models(g2) =~= clarification_gate(*report, *options) + partial_gate(
            *report,
            *options,
        ));
        assert(gate_models(gates@) =~= gates_for(*report, *options));
    }
    gates
}

/// No blocking gate is unmet.
pub open spec fn allowed(gs: Seq<GateModel>) -> bool {
    forall|i: int| 0 <= i < gs.len() ==> !(#[trigger] gs[i]).blocks_design || gs[i].status == GateStatus::Met
}

/// Ids of the blocking gates that are unmet, in order.
pub open spec fn unmet_blocking(gs: Seq<GateModel>) -> Seq<GateId>
    decreases gs.len(),
{
    if gs.len() == 0 {
        Seq::empty()
    } else {
        let g = gs[gs.len() - 1];
        unmet_blocking(gs.subrange(0, gs.len() - 1)) + if g.blocks_design && g.status
            == GateStatus::Unmet {
            seq![g.id]
        } else {
            Seq::empty()
        }
    }
}

/// True when every blocking gate is met.
pub fn design_allowed(gates: &[DesignGate]) -> (r: bool)
    ensures
        r == allowed(gate_models(gates@)),
{
    let ghost gs = gate_models(gates@);
    let mut i: usize = 0;
    while i < gates.len()
        invariant
            i <= gates.len(),
            gs == gate_models(gates@),
            forall|j: int| 0 <= j < i ==> !(#[trigger] gs[j]).blocks_design || gs[j].status == GateStatus::Met,
        decreases gates.len() - i,
    {
        assert(gs[i as int] == gates@[i as int]@);
        let met = match gates[i].status {
            GateStatus::Met => true,
            GateStatus::Unmet => false,
        };
        if gates[i].blocks_design && !met {
            return false;
        }
        i = i + 1;
    }
    true
}

/// Ids of every blocking gate that is unmet; empty when design may
/// proceed.
pub fn unmet_blocking_gates(gates: &[DesignGate]) -> (r: Vec<GateId>)
    ensures
        r@ == unmet_blocking(gate_models(gates@)),
{
    let ghost gs = gate_models(gates@);
    let mut out: Vec<GateId> = Vec::new();
    let mut i: usize = 0;
    while i < gates.len()
        invariant
            i <= gates.len(),
            gs == gate_models(gates@),
            out@ == unmet_blocking(gs.subrange(0, i as int)),
        decreases gates.len() - i,
    {
        proof {
            let next = gs.subrange(0, i + 1);
            assert(next.subrange(0, i as int) =~= gs.subrange(0, i as int));
            assert(next[i as int] == gates@[i as int]@);
        }
        let unmet = match gates[i].status {
            GateStatus::Met => false,
            GateStatus::Unmet => true,
        };
        if gates[i].blocks_design && unmet {
            let ghost before = out@;
            out.push(gates[i].id);
            assert(out@ =~= before + seq![gates@[i as int].id]);
        } else {
            assert(out@ =~= out@ + Seq::<GateId>::empty());
        }
        i = i + 1;
    }
    proof {
        assert(gs.subrange(0, gs.len() as int) =~= gs);
    }
    out
}

/// Design is allowed exactly when no blocking gate is unmet.
pub proof fn lemma_allowed_iff_no_unmet(gs: Seq<GateModel>)
    ensures
        allowed(gs) <==> unmet_blocking(gs).len() == 0,
    decreases gs.len(),
{
    if gs.len() > 0 {
        let init = gs.subrange(0, gs.len() - 1);
        lemma_allowed_iff_no_unmet(init);
        let g = gs[gs.len() - 1];
        if allowed(gs) {
            assert forall|i: int| 0 <= i < init.len() implies !(#[trigger] init[i]).blocks_design
                || init[i].status == GateStatus::Met by {
                assert(init[i] == gs[i]);
            }
        }
        if unmet_blocking(gs).len() == 0 && !allowed(gs) {
            let i = choose|i: int|
                0 <= i < gs.len() && !(!(#[trigger] gs[i]).blocks_design || gs[i].status
                    == GateStatus::Met);
            if i < gs.len() - 1 {
                assert(init[i] == gs[i]);
            }
        }
    }
}

/// Every gate the evaluation emits blocks design, and each gate id
/// occurs at most once.
pub proof fn lemma_gates_block_and_are_distinct(r: SourceAnalysisReport, o: DesignOptions)
    ensures
        forall|i: int| 0 <= i < gates_for(r, o).len() ==> (#[trigger] gates_for(r, o)[i]).blocks_design,
        forall|i: int, j: int|
            0 <= i < j < gates_for(r, o).len() ==> (#[trigger] gates_for(r, o)[i]).id != (
            #[trigger] gates_for(r, o)[j]).id,
{
}

/// No ambiguous column is pending exactly when every one is clarified.
pub proof fn lemma_none_pending_iff_all_clarified(amb: Seq<ColumnRef>, cs: Seq<ColumnClarification>)
    ensures
        pending_count(amb, cs) == 0 <==> forall|k: int| 0 <= k < amb.len() ==> clarified(#[trigger] amb[k], cs),
    decreases amb.len(),
{
    if amb.len() > 0 {
        let init = amb.subrange(0, amb.len() - 1);
        lemma_none_pending_iff_all_clarified(init, cs);
        if pending_count(amb, cs) == 0 {
            assert forall|k: int| 0 <= k < amb.len() implies clarified(#[trigger] amb[k], cs) by {
                if k < amb.len() - 1 {
                    assert(init[k] == amb[k]);
                }
            }
        }
        if forall|k: int| 0 <= k < amb.len() ==> clarified(#[trigger] amb[k], cs) {
            assert forall|k: int| 0 <= k < init.len() implies clarified(#[trigger] init[k], cs) by {
                assert(init[k] == amb[k]);
            }
            assert(clarified(amb[amb.len() - 1], cs));
        }
    }
}

/// Whether the gates hold one with id `id`.
pub open spec fn has_gate(gs: Seq<GateModel>, id: GateId) -> bool {
    exists|i: int| 0 <= i < gs.len() && (#[trigger] gs[i]).id == id
}

/// The gates in order: the clarification gate exactly when some column
/// is ambiguous, met exactly when every ambiguous column has a
/// clarification; then the partial-analysis gate exactly when the
/// analysis is partial, met exactly when that is acknowledged; then the
/// large-schema gate exactly when the schema reaches the threshold, met
/// exactly when that is acknowledged.
pub proof fn lemma_gate_conditions(r: SourceAnalysisReport, o: DesignOptions)
    ensures
        has_gate(gates_for(r, o), GateId::ColumnClarificationsResolved) <==> r.ambiguous_columns@.len() > 0,
        has_gate(gates_for(r, o), GateId::PartialAnalysisAcknowledged) <==> r.analysis_completeness
            == AnalysisCompleteness::Partial,
        has_gate(gates_for(r, o), GateId::LargeSchemaAcknowledged) <==> (r.large_schema_warning matches Some(
            w,
        ) && w.table_count >= LARGE_SCHEMA_GATE_THRESHOLD),
        forall|i: int|
            0 <= i < gates_for(r, o).len() && (#[trigger] gates_for(r, o)[i]).id
                == GateId::ColumnClarificationsResolved ==> (gates_for(r, o)[i].status == GateStatus::Met
                <==> forall|k: int|
                0 <= k < r.ambiguous_columns@.len() ==> clarified(
                    #[trigger] r.ambiguous_columns@[k],
                    o.column_clarifications@,
                )),
        forall|i: int|
            0 <= i < gates_for(r, o).len() && (#[trigger] gates_for(r, o)[i]).id
                == GateId::PartialAnalysisAcknowledged ==> (gates_for(r, o)[i].status == GateStatus::Met
                <==> o.partial_analysis_acknowledged),
        forall|i: int|
            0 <= i < gates_for(r, o).len() && (#[trigger] gates_for(r, o)[i]).id
                == GateId::LargeSchemaAcknowledged ==> (gates_for(r, o)[i].status == GateStatus::Met
                <==> o.large_schema_acknowledged),
        forall|i: int, j: int|
            0 <= i < j < gates_for(r, o).len() ==> gate_order(#[trigger] gates_for(r, o)[i].id) < gate_order(
                #[trigger] gates_for(r, o)[j].id,
            ),
{
    lemma_none_pending_iff_all_clarified(r.ambiguous_columns@, o.column_clarifications@);
    let a = clarification_gate(r, o);
    let b = partial_gate(r, o);
    let c = large_schema_gate(r, o);
    let gs = gates_for(r, o);
    assert(gs =~= a + b + c);
    if a.len() > 0 {
        assert(gs[0] == a[0]);
    }
    if b.len() > 0 {
        assert(gs[a.len() as int] == b[0]);
    }
    if c.len() > 0 {
        assert(gs[(a.len() + b.len()) as int] == c[0]);
    }
}

/// Position of a gate in the evaluation order.
pub open spec fn gate_order(id: GateId) -> int {
    match id {
        GateId::ColumnClarificationsResolved => 0,
        GateId::PartialAnalysisAcknowledged => 1,
        GateId::LargeSchemaAcknowledged => 2,
    }
}

/// Every ambiguous column has a clarification that names both its table
/// and its column name.
pub open spec fn every_column_clarified(amb: Seq<ColumnRef>, cs: Seq<ColumnClarification>) -> bool {
    forall|k: int|
        0 <= k < amb.len() ==> exists|l: int|
            0 <= l < cs.len() && (#[trigger] cs[l]).table@ == (#[trigger] amb[k]).relation@
                && cs[l].column@ == amb[k].column@
}

/// A clarification resolves an ambiguous column only when both its table
/// equals the column's relation and its column equals the column's name:
/// one that names another table leaves the column pending. The
/// clarification gate is met exactly when every ambiguous column is so
/// clarified, and design is allowed exactly when every ambiguous column is
/// so clarified, a partial analysis is acknowledged and a schema at the
/// large-schema threshold is acknowledged.
pub proof fn lemma_clarification_matches_table_and_column(
    r: SourceAnalysisReport,
    o: DesignOptions,
)
    ensures
        forall|i: int|
            0 <= i < gates_for(r, o).len() && (#[trigger] gates_for(r, o)[i]).id
                == GateId::ColumnClarificationsResolved ==> (gates_for(r, o)[i].status
                == GateStatus::Met <==> every_column_clarified(
                r.ambiguous_columns@,
                o.column_clarifications@,
            )),
        allowed(gates_for(r, o)) <==> {
            &&& every_column_clarified(r.ambiguous_columns@, o.column_clarifications@)
            &&& r.analysis_completeness == AnalysisCompleteness::Partial
                ==> o.partial_analysis_acknowledged
            &&& (r.large_schema_warning matches Some(w) && w.table_count
                >= LARGE_SCHEMA_GATE_THRESHOLD) ==> o.large_schema_acknowledged
        },
{
    let amb = r.ambiguous_columns@;
    let cs = o.column_clarifications@;
    lemma_none_pending_iff_all_clarified(amb, cs);
    assert((forall|k: int| 0 <= k < amb.len() ==> clarified(#[trigger] amb[k], cs))
        <==> every_column_clarified(amb, cs)) by {
        if every_column_clarified(amb, cs) {
            assert forall|k: int| 0 <= k < amb.len() implies clarified(#[trigger] amb[k], cs) by {
                let l = choose|l: int|
                    0 <= l < cs.len() && (#[trigger] cs[l]).table@ == (#[trigger] amb[k]).relation@
                        && cs[l].column@ == amb[k].column@;
                assert(cs[l].table@ == amb[k].relation@ && cs[l].column@ == amb[k].column@);
            }
        }
        if forall|k: int| 0 <= k < amb.len() ==> clarified(#[trigger] amb[k], cs) {
            assert forall|k: int| 0 <= k < amb.len() implies exists|l: int|
                0 <= l < cs.len() && (#[trigger] cs[l]).table@ == (#[trigger] amb[k]).relation@
                    && cs[l].column@ == amb[k].column@ by {
                assert(clarified(amb[k], cs));
                let l = choose|l: int|
                    0 <= l < cs.len() && (#[trigger] cs[l]).table@ == amb[k].relation@
                        && cs[l].column@ == amb[k].column@;
                assert(cs[l].table@ == amb[k].relation@);
            }
        }
    }
    let a = clarification_gate(r, o);
    let b = partial_gate(r, o);
    let c = large_schema_gate(r, o);
    let gs = gates_for(r, o);
    assert(gs =~= a + b + c);
    let na = a.len() as int;
    let nb = b.len() as int;
    if allowed(gs) {
        if na > 0 {
            assert(gs[0] == a[0]);
        }
        if nb > 0 {
            assert(gs[na] == b[0]);
        }
        if c.len() > 0 {
            assert(gs[na + nb] == c[0]);
        }
    }
    if every_column_clarified(amb, cs) && (r.analysis_completeness
        == AnalysisCompleteness::Partial ==> o.partial_analysis_acknowledged) && ((
    r.large_schema_warning matches Some(w) && w.table_count >= LARGE_SCHEMA_GATE_THRESHOLD)
        ==> o.large_schema_acknowledged) {
        assert forall|i: int| 0 <= i < gs.len() implies !(#[trigger] gs[i]).blocks_design
            || gs[i].status == GateStatus::Met by {
            if i < na {
                assert(gs[i] == a[i]);
            } else if i < na + nb {
                assert(gs[i] == b[i - na]);
            } else {
                assert(gs[i] == c[i - na - nb]);
            }
        }
    }
    assert forall|i: int|
        0 <= i < gs.len() && (#[trigger] gs[i]).id == GateId::ColumnClarificationsResolved
            implies (gs[i].status == GateStatus::Met <==> every_column_clarified(amb, cs)) by {
        if i < na {
            assert(gs[i] == a[i]);
        } else if i < na + nb {
            assert(gs[i] == b[i - na]);
        } else {
            assert(gs[i] == c[i - na - nb]);
        }
    }
}

/// Whether some clarification names both the column's table and its name.
pub open spec fn has_clarification(cs: Seq<ColumnClarification>) -> spec_fn(ColumnRef) -> bool {
    |c: ColumnRef|
        exists|l: int| 0 <= l < cs.len() && (#[trigger] cs[l]).table@ == c.relation@ && cs[l].column@ == c.column@
}

/// The ambiguous columns that no clarification names, in order.
pub open spec fn unresolved(amb: Seq<ColumnRef>, cs: Seq<ColumnClarification>) -> Seq<ColumnRef> {
    amb.filter(|c: ColumnRef| !has_clarification(cs)(c))
}

proof fn lemma_pending_is_unresolved(amb: Seq<ColumnRef>, cs: Seq<ColumnClarification>)
    ensures
        pending_count(amb, cs) == unresolved(amb, cs).len(),
    decreases amb.len(),
{
    if amb.len() > 0 {
        let init = amb.subrange(0, amb.len() - 1);
        assert(init == amb.drop_last());
        lemma_pending_is_unresolved(init, cs);
        let c = amb[amb.len() - 1];
        let pred = |x: ColumnRef| !has_clarification(cs)(x);
        reveal(Seq::filter);
        assert(unresolved(amb, cs) == amb.filter(pred));
        assert(unresolved(init, cs) == init.filter(pred));
        assert(amb.filter(pred) == if pred(c) {
            init.filter(pred).push(c)
        } else {
            init.filter(pred)
        });
        assert(clarified(c, cs) <==> has_clarification(cs)(c)) by {
            if clarified(c, cs) {
                let k = choose|k: int|
                    0 <= k < cs.len() && (#[trigger] cs[k]).table@ == c.relation@ && cs[k].column@ == c.column@;
                assert(cs[k].table@ == c.relation@);
            }
            if has_clarification(cs)(c) {
                let l = choose|l: int|
                    0 <= l < cs.len() && (#[trigger] cs[l]).table@ == c.relation@ && cs[l].column@ == c.column@;
                assert(cs[l].table@ == c.relation@);
            }
        }
    }
}

/// What each gate reports: the clarification gate counts the ambiguous
/// columns that no clarification names (by table and column) and all
/// ambiguous columns; the partial-analysis gate counts the analysis
/// warnings; the large-schema gate gives the table count and the
/// threshold.
pub proof fn lemma_gate_parameters(r: SourceAnalysisReport, o: DesignOptions)
    ensures
        forall|i: int|
            0 <= i < gates_for(r, o).len() && (#[trigger] gates_for(r, o)[i]).id
                == GateId::ColumnClarificationsResolved ==> gates_for(r, o)[i].params == seq![
                ("pending_count"@, decimal(unresolved(r.ambiguous_columns@, o.column_clarifications@).len())),
                ("total_count"@, decimal(r.ambiguous_columns@.len())),
            ],
        forall|i: int|
            0 <= i < gates_for(r, o).len() && (#[trigger] gates_for(r, o)[i]).id
                == GateId::PartialAnalysisAcknowledged ==> gates_for(r, o)[i].params == seq![
                ("warning_count"@, decimal(r.analysis_warnings@.len())),
            ],
        forall|i: int|
            0 <= i < gates_for(r, o).len() && (#[trigger] gates_for(r, o)[i]).id
                == GateId::LargeSchemaAcknowledged ==> r.large_schema_warning is Some && gates_for(r, o)[i].params
                == seq![
                ("table_count"@, decimal(r.large_schema_warning->0.table_count as nat)),
                ("threshold"@, decimal(100)),
            ],
{
    lemma_pending_is_unresolved(r.ambiguous_columns@, o.column_clarifications@);
    let a = clarification_gate(r, o);
    let b = partial_gate(r, o);
    let c = large_schema_gate(r, o);
    let gs = gates_for(r, o);
    assert(gs =~= a + b + c);
    let na = a.len() as int;
    let nb = b.len() as int;
    assert forall|i: int| 0 <= i < gs.len() implies (i < na ==> gs[i] == a[i]) && (na <= i < na + nb
        ==> gs[i] == b[i - na]) && (na + nb <= i ==> gs[i] == c[i - na - nb]) by {
    }
}

} // verus!
