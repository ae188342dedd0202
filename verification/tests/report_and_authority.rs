use seaf_loop::eval_engine::CheckStatus;
use seaf_loop::eval_report::{
    eval_report_id, loop_step_check, patch_policy_gate_check, report_outcome, sanitize_id,
    schema_validation_check, EvalDecision,
    PolicyDecisionSummary, RiskLevel,
};
use seaf_loop::evaluation_attempt::Spelling;
use seaf_loop::final_evaluation_authority::{
    check_final_aggregate, final_status_passed, format_field_errors, invalid_final_run,
    require_run_directory, require_testing_schema,
};
use seaf_loop::model_runner::{
    is_early_role_step, is_structural_request_key, records_context_cap_reached, role_for_step,
    status_for_response, CappedJsonCounter, ExchangeRecordSummary, LoopStep, ResponseOutcome, Role,
    StepOutcomeStatus,
};

#[test]
fn report_ids_keep_only_identifier_characters() {
    assert_eq!(sanitize_id("run/1 beta"), "run_1_beta");
    assert_eq!(sanitize_id("__x__"), "x");
    assert_eq!(sanitize_id("///"), "local");
    assert_eq!(sanitize_id(""), "local");
    assert_eq!(eval_report_id("r.1"), "eval_r_1");
}

#[test]
fn a_report_passes_only_when_every_check_passed() {
    let outcome = report_outcome(&[CheckStatus::Passed, CheckStatus::Passed]);
    assert!(outcome.passed);
    assert_eq!(outcome.summary, "Loop run and required eval checks passed.");
    assert_eq!(outcome.risk_level, RiskLevel::Low);
    assert_eq!(outcome.decision, EvalDecision::ApproveForHumanReview);
    let outcome = report_outcome(&[CheckStatus::Passed, CheckStatus::Failed]);
    assert!(!outcome.passed);
    assert_eq!(outcome.risk_level, RiskLevel::High);
    assert_eq!(outcome.decision, EvalDecision::Reject);
}

fn decision(patch_id: &str, rejected: bool) -> PolicyDecisionSummary {
    PolicyDecisionSummary {
        patch_id: patch_id.to_string(),
        rejected,
    }
}

#[test]
fn the_policy_gate_needs_matching_unrejected_decisions() {
    assert_eq!(
        patch_policy_gate_check(&[], "r"),
        (
            false,
            "No patch policy gate decision was recorded; refusing to approve without gate evidence."
                .to_string()
        )
    );
    assert_eq!(
        patch_policy_gate_check(&[decision("r", false)], "r"),
        (
            true,
            "Recorded patch policy gate decisions did not reject the patch.".to_string()
        )
    );
    assert_eq!(
        patch_policy_gate_check(&[decision("r", true), decision("s", false), decision("t", true)], "r"),
        (
            false,
            "policy_decisions[1].patch_id s does not match run_id r; policy_decisions[2].patch_id t does not match run_id r"
                .to_string()
        )
    );
    assert_eq!(
        patch_policy_gate_check(&[decision("r", true), decision("r", false), decision("r", true)], "r"),
        (
            false,
            "policy_decisions[0] rejected patch; policy_decisions[2] rejected patch".to_string()
        )
    );
}

#[test]
fn final_authority_refusals_name_the_fault() {
    let errors = vec![
        ("status".to_string(), "is unknown".to_string()),
        ("run_id".to_string(), "is empty".to_string()),
    ];
    assert_eq!(format_field_errors(&errors), "status: is unknown; run_id: is empty");
    assert_eq!(
        invalid_final_run(&errors).to_string(),
        "invalid final LoopRun: status: is unknown; run_id: is empty"
    );
    assert!(require_run_directory(Some("r"), "r", true).is_ok());
    assert!(require_run_directory(None, "r", false).is_ok());
    assert_eq!(
        require_run_directory(Some("s"), "r", true).unwrap_err().to_string(),
        "final LoopRun run_id does not match the authoritative run directory"
    );
}

fn retry(step: u32) -> ExchangeRecordSummary {
    ExchangeRecordSummary {
        request_phase: true,
        context_retry: true,
        step,
    }
}

#[test]
fn context_retries_are_capped_per_run_and_per_step() {
    assert!(!records_context_cap_reached(&[retry(1)], 1));
    assert!(records_context_cap_reached(&[retry(1), retry(1)], 1));
    assert!(!records_context_cap_reached(&[retry(1), retry(1)], 2));
    let eight: Vec<_> = (0..8).map(retry).collect();
    assert!(records_context_cap_reached(&eight, 20));
    let mut other = retry(3);
    other.request_phase = false;
    assert!(!records_context_cap_reached(&[other, retry(3)], 3));
}

#[test]
fn structural_keys_and_audit_caps() {
    assert!(is_structural_request_key("artifact_Path"));
    assert!(is_structural_request_key("SHA256"));
    assert!(!is_structural_request_key("content"));
    let mut counter = CappedJsonCounter::new(10);
    assert_eq!(counter.write(6), Ok(6));
    assert_eq!(counter.write(4), Ok(4));
    assert_eq!(
        counter.write(1),
        Err("provider audit exceeds its durable byte cap".to_string())
    );
    assert!(counter.exceeded);
    assert_eq!(counter.count, 10);
}

#[test]
fn final_status_decides_the_expected_outcome() {
    assert_eq!(final_status_passed("EvalPassed", false), Ok(true));
    assert_eq!(final_status_passed("Promoted", true), Ok(true));
    assert_eq!(final_status_passed("Failed", true), Ok(false));
    assert_eq!(
        final_status_passed("Failed", false).unwrap_err().to_string(),
        "LoopRun is not final integrated evaluation authority"
    );
    assert!(final_status_passed("Approved", true).is_err());
}

#[test]
fn testing_schema_must_match_the_selected_spelling() {
    assert!(require_testing_schema(1, None, Spelling::Fixed, 1).is_ok());
    assert!(require_testing_schema(2, Some(3), Spelling::Indexed, 3).is_ok());
    assert_eq!(
        require_testing_schema(2, Some(2), Spelling::Indexed, 3).unwrap_err().to_string(),
        "Testing evidence schema does not match selected evaluation attempt path"
    );
    assert!(require_testing_schema(1, None, Spelling::Indexed, 1).is_err());
    assert!(require_testing_schema(2, Some(1), Spelling::Fixed, 1).is_err());
}

#[test]
fn final_aggregate_must_agree_with_the_decision() {
    assert!(check_final_aggregate(true, true, true, EvalDecision::ApproveForHumanReview).is_ok());
    assert!(check_final_aggregate(false, false, false, EvalDecision::Reject).is_ok());
    assert_eq!(
        check_final_aggregate(true, true, false, EvalDecision::ApproveForHumanReview).unwrap_err().to_string(),
        "Testing evidence and EvalReport aggregate do not match final LoopRun status"
    );
    assert_eq!(
        check_final_aggregate(true, true, true, EvalDecision::Reject).unwrap_err().to_string(),
        "passing final authority cannot use a rejecting EvalReport"
    );
    assert_eq!(
        check_final_aggregate(false, false, false, EvalDecision::ApproveForHumanReview).unwrap_err().to_string(),
        "reported evaluation failure requires a rejecting EvalReport"
    );
}

const RESEARCH: u32 = 0;
const ANALYSIS: u32 = 1;
const SPEC_CREATION: u32 = 2;
const DEVELOPMENT: u32 = 3;
const OUTPUT_REVIEW: u32 = 5;

fn request(step: u32, context_retry: bool) -> ExchangeRecordSummary {
    ExchangeRecordSummary { request_phase: true, context_retry, step }
}

#[test]
fn caps_count_context_requests_across_attempts_but_not_initial_or_repairs() {
    // Initial, context retry and JSON repair requests of attempt 1.
    let records = vec![request(RESEARCH, false), request(RESEARCH, true), request(RESEARCH, false)];
    assert!(
        !records_context_cap_reached(&records, RESEARCH),
        "one accepted expansion still permits the second"
    );

    let mut across_attempts = records;
    across_attempts.push(request(RESEARCH, true));
    assert!(
        records_context_cap_reached(&across_attempts, RESEARCH),
        "two accepted expansions across attempts deny the third"
    );
}

#[test]
fn run_cap_counts_eight_context_requests_across_roles() {
    let mut records = Vec::new();
    for step in [RESEARCH, ANALYSIS, SPEC_CREATION, DEVELOPMENT] {
        records.push(request(step, true));
        records.push(request(step, true));
    }
    let eighth = records.pop().expect("eighth accepted expansion");
    assert!(
        !records_context_cap_reached(&records, OUTPUT_REVIEW),
        "seven accepted expansions still permit the eighth"
    );
    records.push(eighth);
    assert!(
        records_context_cap_reached(&records, OUTPUT_REVIEW),
        "eight accepted expansions deny the ninth"
    );
}

#[test]
fn schema_validation_lists_every_failure() {
    assert_eq!(
        schema_validation_check(&[], &[], "G-1", "G-1"),
        (true, "Loop run and ticket schemas are valid.".to_string())
    );
    let run_errors = vec![("status".to_string(), "unknown".to_string())];
    let ticket_errors = vec![("id".to_string(), "empty".to_string())];
    assert_eq!(
        schema_validation_check(&run_errors, &ticket_errors, "G-1", "G-2"),
        (
            false,
            "loop_run.status: unknown; ticket.id: empty; run.goal_id must match ticket.goal_id (G-1 != G-2)"
                .to_string()
        )
    );
}

#[test]
fn loop_step_checks_pass_only_finished_steps() {
    assert_eq!(
        loop_step_check("SpecReview", Some("Completed")),
        (true, "Loop step SpecReview status is Completed.".to_string())
    );
    assert_eq!(
        loop_step_check("OutputReview", Some("Running")),
        (false, "Loop step OutputReview status is Running.".to_string())
    );
    assert_eq!(
        loop_step_check("OutputReview", None),
        (false, "Loop step OutputReview is missing from run state.".to_string())
    );
}

#[test]
fn steps_map_to_their_roles() {
    assert_eq!(role_for_step(LoopStep::Research), Some(Role::Researcher));
    assert_eq!(role_for_step(LoopStep::SpecReview), Some(Role::SpecReviewer));
    assert_eq!(role_for_step(LoopStep::OutputReview), Some(Role::OutputReviewer));
    assert_eq!(role_for_step(LoopStep::Testing), None);
    assert_eq!(role_for_step(LoopStep::EvalReport), None);
    assert!(is_early_role_step(LoopStep::SpecCreation));
    assert!(!is_early_role_step(LoopStep::Development));
}

#[test]
fn responses_set_the_step_status() {
    assert_eq!(status_for_response(ResponseOutcome::AgentPassed), StepOutcomeStatus::Completed);
    assert_eq!(status_for_response(ResponseOutcome::AgentNeedsContext), StepOutcomeStatus::Blocked);
    assert_eq!(status_for_response(ResponseOutcome::PatchProposed), StepOutcomeStatus::Completed);
    assert_eq!(status_for_response(ResponseOutcome::ApproveForTests), StepOutcomeStatus::Passed);
    assert_eq!(status_for_response(ResponseOutcome::RequestChanges), StepOutcomeStatus::Blocked);
    assert_eq!(status_for_response(ResponseOutcome::Reject), StepOutcomeStatus::Failed);
}
