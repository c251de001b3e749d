use ox_ontology::inference_pipeline::{PipelineStage, StageOutcome};

#[test]
fn forward_path_passes_through_full_pipeline() {
    let path = [
        PipelineStage::SafetyGate,
        PipelineStage::Retrieve,
        PipelineStage::Ground,
        PipelineStage::Compile,
        PipelineStage::Validate,
        PipelineStage::Select,
        PipelineStage::Compose,
        PipelineStage::Done,
    ];
    for w in path.windows(2) {
        let from = w[0];
        let to = w[1];
        assert_eq!(from.next(StageOutcome::Pass), Some(to), "Pass({:?}) should reach {:?}", from, to);
    }
}

#[test]
fn validate_failure_routes_into_refine() {
    assert_eq!(PipelineStage::Validate.next(StageOutcome::Fail), Some(PipelineStage::Refine));
    assert_eq!(PipelineStage::Compile.next(StageOutcome::Fail), Some(PipelineStage::Refine));
}

#[test]
fn refine_pass_loops_back_to_compile() {
    assert_eq!(PipelineStage::Refine.next(StageOutcome::Pass), Some(PipelineStage::Compile));
}

#[test]
fn refine_failure_is_terminal() {
    assert_eq!(PipelineStage::Refine.next(StageOutcome::Fail), Some(PipelineStage::Done));
}

#[test]
fn safety_failure_short_circuits_to_done() {
    assert_eq!(PipelineStage::SafetyGate.next(StageOutcome::Fail), Some(PipelineStage::Done));
}

#[test]
fn done_stage_has_no_outgoing_transition() {
    assert_eq!(PipelineStage::Done.next(StageOutcome::Pass), None);
    assert_eq!(PipelineStage::Done.next(StageOutcome::Fail), None);
    assert_eq!(PipelineStage::Done.next(StageOutcome::Skip), None);
}

#[test]
fn stage_wire_strings_round_trip() {
    for stage in [
        PipelineStage::SafetyGate,
        PipelineStage::Retrieve,
        PipelineStage::Ground,
        PipelineStage::Compile,
        PipelineStage::Validate,
        PipelineStage::Refine,
        PipelineStage::Select,
        PipelineStage::Compose,
        PipelineStage::Done,
    ] {
        let wire = stage.as_str();
        let back = PipelineStage::from_wire_str(wire);
        assert_eq!(back, Some(stage), "round-trip broke for {wire}");
    }
}

#[test]
fn unknown_wire_string_is_rejected() {
    assert_eq!(PipelineStage::from_wire_str("nope"), None);
    assert_eq!(PipelineStage::from_wire_str(""), None);
    assert_eq!(PipelineStage::SafetyGate.as_str(), "safety_gate");
}

#[test]
fn skipped_refine_moves_on_like_a_passed_one() {
    assert_eq!(PipelineStage::Refine.next(StageOutcome::Skip), Some(PipelineStage::Compile));
    for s in [
        PipelineStage::SafetyGate,
        PipelineStage::Retrieve,
        PipelineStage::Ground,
        PipelineStage::Compile,
        PipelineStage::Validate,
        PipelineStage::Refine,
        PipelineStage::Select,
        PipelineStage::Compose,
    ] {
        assert_eq!(s.next(StageOutcome::Skip), s.next(StageOutcome::Pass));
    }
}
