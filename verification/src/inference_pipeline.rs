//! Typed inference pipeline: the closed set of stages, the outcome a
//! stage reports, and the deterministic transition table that picks
//! the next stage.

use vstd::prelude::*;

use crate::text::str_equal;

verus! {

/// One stage in the NL→Query inference pipeline.
#[derive(Debug, Clone, Copy, PartialEq, Eq, Hash, Structural)]
pub enum PipelineStage {
    SafetyGate,
    Retrieve,
    Ground,
    Compile,
    Validate,
    Refine,
    Select,
    Compose,
    Done,
}

/// What a stage produced.
#[derive(Debug, Clone, Copy, PartialEq, Eq, Hash, Structural)]
pub enum StageOutcome {
    Pass,
    Fail,
    Skip,
}

/// Why a failure happened.
#[derive(Debug, Clone, Copy, PartialEq, Eq, Hash, Structural)]
pub enum ErrorClassification {
    ValidationFailure,
    RuntimeError,
    Timeout,
    OutOfBudget,
    SafetyReject,
    Internal,
}

/// Outcome of one attempt.
#[derive(Debug, Clone, PartialEq, Eq)]
pub enum AttemptOutcome {
    Success,
    ValidationError { classification: ErrorClassification, message: String },
    RuntimeError { classification: ErrorClassification, message: String },
    Timeout,
    OutOfBudget,
}

/// The transition table, `(from, outcome, to)` rows in table order.
pub open spec fn transition_table() -> Seq<(PipelineStage, StageOutcome, PipelineStage)> {
    seq![
        (PipelineStage::SafetyGate, StageOutcome::Pass, PipelineStage::Retrieve),
        (PipelineStage::SafetyGate, StageOutcome::Fail, PipelineStage::Done),
        (PipelineStage::SafetyGate, StageOutcome::Skip, PipelineStage::Retrieve),
        (PipelineStage::Retrieve, StageOutcome::Pass, PipelineStage::Ground),
        (PipelineStage::Retrieve, StageOutcome::Fail, PipelineStage::Done),
        (PipelineStage::Retrieve, StageOutcome::Skip, PipelineStage::Ground),
        (PipelineStage::Ground, StageOutcome::Pass, PipelineStage::Compile),
        (PipelineStage::Ground, StageOutcome::Fail, PipelineStage::Done),
        (PipelineStage::Ground, StageOutcome::Skip, PipelineStage::Compile),
        (PipelineStage::Compile, StageOutcome::Pass, PipelineStage::Validate),
        (PipelineStage::Compile, StageOutcome::Fail, PipelineStage::Refine),
        (PipelineStage::Compile, StageOutcome::Skip, PipelineStage::Validate),
        (PipelineStage::Validate, StageOutcome::Pass, PipelineStage::Select),
        (PipelineStage::Validate, StageOutcome::Fail, PipelineStage::Refine),
        (PipelineStage::Validate, StageOutcome::Skip, PipelineStage::Select),
        (PipelineStage::Refine, StageOutcome::Pass, PipelineStage::Compile),
        (PipelineStage::Refine, StageOutcome::Fail, PipelineStage::Done),
        (PipelineStage::Refine, StageOutcome::Skip, PipelineStage::Compile),
        (PipelineStage::Select, StageOutcome::Pass, PipelineStage::Compose),
        (PipelineStage::Select, StageOutcome::Fail, PipelineStage::Done),
        (PipelineStage::Select, StageOutcome::Skip, PipelineStage::Compose),
        (PipelineStage::Compose, StageOutcome::Pass, PipelineStage::Done),
        (PipelineStage::Compose, StageOutcome::Fail, PipelineStage::Done),
        (PipelineStage::Compose, StageOutcome::Skip, PipelineStage::Done),
    ]
}

/// The stage that follows `from` on `outcome`: the target of the first
/// table row keyed by `(from, outcome)`, `None` when no row is.
pub open spec fn table_lookup(
    rows: Seq<(PipelineStage, StageOutcome, PipelineStage)>,
    from: PipelineStage,
    outcome: StageOutcome,
) -> Option<PipelineStage>
    decreases rows.len(),
{
    if rows.len() == 0 {
        None
    } else if rows[0].0 == from && rows[0].1 == outcome {
        Some(rows[0].2)
    } else {
        table_lookup(rows.subrange(1, rows.len() as int), from, outcome)
    }
}

/// The wire string of each stage.
pub open spec fn wire_name(s: PipelineStage) -> Seq<char> {
    match s {
        PipelineStage::SafetyGate => "safety_gate"@,
        PipelineStage::Retrieve => "retrieve"@,
        PipelineStage::Ground => "ground"@,
        PipelineStage::Compile => "compile"@,
        PipelineStage::Validate => "validate"@,
        PipelineStage::Refine => "refine"@,
        PipelineStage::Select => "select"@,
        PipelineStage::Compose => "compose"@,
        PipelineStage::Done => "done"@,
    }
}

/// The transition rows in table order.
pub fn transitions() -> (r: Vec<(PipelineStage, StageOutcome, PipelineStage)>)
    ensures
        r@ == transition_table(),
{
    let r = vec![
        (PipelineStage::SafetyGate, StageOutcome::Pass, PipelineStage::Retrieve),
        (PipelineStage::SafetyGate, StageOutcome::Fail, PipelineStage::Done),
        (PipelineStage::SafetyGate, StageOutcome::Skip, PipelineStage::Retrieve),
        (PipelineStage::Retrieve, StageOutcome::Pass, PipelineStage::Ground),
        (PipelineStage::Retrieve, StageOutcome::Fail, PipelineStage::Done),
        (PipelineStage::Retrieve, StageOutcome::Skip, PipelineStage::Ground),
        (PipelineStage::Ground, StageOutcome::Pass, PipelineStage::Compile),
        (PipelineStage::Ground, StageOutcome::Fail, PipelineStage::Done),
        (PipelineStage::Ground, StageOutcome::Skip, PipelineStage::Compile),
        (PipelineStage::Compile, StageOutcome::Pass, PipelineStage::Validate),
        (PipelineStage::Compile, StageOutcome::Fail, PipelineStage::Refine),
        (PipelineStage::Compile, StageOutcome::Skip, PipelineStage::Validate),
        (PipelineStage::Validate, StageOutcome::Pass, PipelineStage::Select),
        (PipelineStage::Validate, StageOutcome::Fail, PipelineStage::Refine),
        (PipelineStage::Validate, StageOutcome::Skip, PipelineStage::Select),
        (PipelineStage::Refine, StageOutcome::Pass, PipelineStage::Compile),
        (PipelineStage::Refine, StageOutcome::Fail, PipelineStage::Done),
        (PipelineStage::Refine, StageOutcome::Skip, PipelineStage::Compile),
        (PipelineStage::Select, StageOutcome::Pass, PipelineStage::Compose),
        (PipelineStage::Select, StageOutcome::Fail, PipelineStage::Done),
        (PipelineStage::Select, StageOutcome::Skip, PipelineStage::Compose),
        (PipelineStage::Compose, StageOutcome::Pass, PipelineStage::Done),
        (PipelineStage::Compose, StageOutcome::Fail, PipelineStage::Done),
        (PipelineStage::Compose, StageOutcome::Skip, PipelineStage::Done),
    ];
    assert(r@ =~= transition_table());
    r
}

/// Stage equality by variant.
pub fn stage_eq(a: PipelineStage, b: PipelineStage) -> (r: bool)
    ensures
        r == (a == b),
{
    a == b
}

/// Outcome equality by variant.
pub fn outcome_eq(a: StageOutcome, b: StageOutcome) -> (r: bool)
    ensures
        r == (a == b),
{
    a == b
}

impl PipelineStage {
    /// Look up `(self, outcome)` in the transition table; `None` only for
    /// the terminal `Done` stage.
    pub fn next(self, outcome: StageOutcome) -> (r: Option<PipelineStage>)
        ensures
            r == table_lookup(transition_table(), self, outcome),
    {
        let rows = transitions();
        let n = rows.len();
        let mut i: usize = 0;
        assert(rows@.subrange(0, n as int) =~= rows@);
        while i < n
            invariant
                n == rows.len(),
                rows@ == transition_table(),
                i <= n,
                table_lookup(transition_table(), self, outcome) == table_lookup(
                    rows@.subrange(i as int, n as int),
                    self,
                    outcome,
                ),
            decreases n - i,
        {
            let (from, out, to) = rows[i];
            assert(rows@.subrange(i as int, n as int)[0] == rows@[i as int]);
            assert(rows@.subrange(i as int, n as int).subrange(1, (n - i) as int)
                =~= rows@.subrange(i + 1, n as int));
            if stage_eq(from, self) && outcome_eq(out, outcome) {
                return Some(to);
            }
            i = i + 1;
        }
        None
    }

    /// Wire string for the stage.
    pub fn as_str(&self) -> (s: &'static str)
        ensures
            s@ == wire_name(*self),
    {
        match self {
            PipelineStage::SafetyGate => "safety_gate",
            PipelineStage::Retrieve => "retrieve",
            PipelineStage::Ground => "ground",
            PipelineStage::Compile => "compile",
            PipelineStage::Validate => "validate",
            PipelineStage::Refine => "refine",
            PipelineStage::Select => "select",
            PipelineStage::Compose => "compose",
            PipelineStage::Done => "done",
        }
    }

    /// Inverse of [`Self::as_str`]; `None` for an unrecognised tag.
    pub fn from_wire_str(s: &str) -> (r: Option<PipelineStage>)
        ensures
            r matches Some(st) ==> wire_name(st) == s@,
            r is None ==> forall|st: PipelineStage| #[trigger] wire_name(st) != s@,
    {
        if str_equal(s, "safety_gate") {
            Some(PipelineStage::SafetyGate)
        } else if str_equal(s, "retrieve") {
            Some(PipelineStage::Retrieve)
        } else if str_equal(s, "ground") {
            Some(PipelineStage::Ground)
        } else if str_equal(s, "compile") {
            Some(PipelineStage::Compile)
        } else if str_equal(s, "validate") {
            Some(PipelineStage::Validate)
        } else if str_equal(s, "refine") {
            Some(PipelineStage::Refine)
        } else if str_equal(s, "select") {
            Some(PipelineStage::Select)
        } else if str_equal(s, "compose") {
            Some(PipelineStage::Compose)
        } else if str_equal(s, "done") {
            Some(PipelineStage::Done)
        } else {
            assert forall|st: PipelineStage| #[trigger] wire_name(st) != s@ by {
                match st {
                    PipelineStage::SafetyGate => {},
                    PipelineStage::Retrieve => {},
                    PipelineStage::Ground => {},
                    PipelineStage::Compile => {},
                    PipelineStage::Validate => {},
                    PipelineStage::Refine => {},
                    PipelineStage::Select => {},
                    PipelineStage::Compose => {},
                    PipelineStage::Done => {},
                }
            }
            None
        }
    }
}

/// Wire names are pairwise distinct, so the tag identifies the stage.
pub proof fn lemma_wire_names_distinct(a: PipelineStage, b: PipelineStage)
    ensures
        wire_name(a) == wire_name(b) ==> a == b,
{
    reveal_strlit("safety_gate");
    reveal_strlit("retrieve");
    reveal_strlit("ground");
    reveal_strlit("compile");
    reveal_strlit("validate");
    reveal_strlit("refine");
    reveal_strlit("select");
    reveal_strlit("compose");
    reveal_strlit("done");
    if wire_name(a) == wire_name(b) && a != b {
        let wa = wire_name(a);
        let wb = wire_name(b);
        assert(wa.len() == wb.len());
        assert(wa[0] == wb[0]);
        assert(wa[1] == wb[1]);
        assert(wa[2] == wb[2]);
        assert(wa[3] == wb[3]);
        assert(wa[4] == wb[4]);
        assert(false);
    }
}

/// Parsing the wire string of a stage gives the stage back.
pub proof fn lemma_wire_round_trip(st: PipelineStage, parsed: Option<PipelineStage>)
    requires
        parsed matches Some(p) ==> wire_name(p) == wire_name(st),
        parsed is None ==> forall|x: PipelineStage| #[trigger] wire_name(x) != wire_name(st),
    ensures
        parsed == Some(st),
{
    if let Some(p) = parsed {
        lemma_wire_names_distinct(p, st);
    } else {
        let w = wire_name(st);
        assert(wire_name(st) != w);
    }
}

/// Every non-terminal `(stage, outcome)` pair has a successor; the
/// terminal stage has none.
pub proof fn lemma_transition_table_total(s: PipelineStage, o: StageOutcome)
    ensures
        table_lookup(transition_table(), s, o) is None <==> s == PipelineStage::Done,
{
    reveal_with_fuel(table_lookup, 25);
}

/// Every non-terminal `(stage, outcome)` pair keys exactly one row.
pub proof fn lemma_transition_rows_unique(s: PipelineStage, o: StageOutcome, i: int, j: int)
    requires
        0 <= i < transition_table().len(),
        0 <= j < transition_table().len(),
        transition_table()[i].0 == s && transition_table()[i].1 == o,
        transition_table()[j].0 == s && transition_table()[j].1 == o,
    ensures
        i == j,
{
}

/// A skipped stage moves on exactly as a passed one does.
pub proof fn lemma_skip_moves_like_pass(s: PipelineStage)
    ensures
        table_lookup(transition_table(), s, StageOutcome::Skip) == table_lookup(
            transition_table(),
            s,
            StageOutcome::Pass,
        ),
{
    reveal_with_fuel(table_lookup, 25);
}

/// How an inference session ended.
#[derive(Debug)]
pub enum SessionOutcome {
    /// A usable query was produced by the winning attempt.
    Success { winning_attempt_id: uuid::Uuid },
    /// The refinement budget ran out.
    Exhausted { reason: String },
    /// A safety gate or another rejection fired.
    Rejected { classification: ErrorClassification, reason: String },
    /// Cancelled by the operator or cut off upstream.
    Cancelled,
}

} // verus!
