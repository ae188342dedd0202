use seaf_loop::eval_report::EvalDecision;
use seaf_loop::evaluation_attempt::{
    check_intent_attempt, intent_path_slot, intent_schema, parse_name, ArtifactEntry, EvaluationAttemptInventory,
    EvaluationAttemptPaths, IntentSchema, Kind, Spelling,
};
use seaf_loop::inspect::InspectError;
use seaf_loop::inspect_run::{referenced_paths, unsafe_referenced_path, RunReferences};
use seaf_loop::final_evaluation_authority::{
    verify_final_evaluation_authority, ApprovalFacts, FinalAuthorityFacts, LoopEvidenceFacts, ReferenceFacts,
};
use seaf_loop::inspect::{EvidenceClassification, InspectionIntegrity};
use seaf_loop::loop_inspection::{assemble_loop_inspection, final_authority_required, LoopInspectionParts};
use seaf_loop::migration::{
    admit_directory, admit_entry, admit_file_bytes, inventory_file_entry, read_file_entry, InventoryCounts,
    RunTreeEntry,
};
use seaf_loop::provider_attempts::{ProviderAttemptInspection, ProviderAttemptsInventory, ProviderExchangeInspection};
use seaf_loop::run_authentication::{
    check_development_reference, check_legacy_shape_supported, check_policy_binding, check_referenced_digest,
    check_run_id, check_ticket_binding,
};

const ABC: &str = "ba7816bf8f01cfea414140de5dae2223b00361a396177a9cb410ff61f20015ad";

fn reference(path: &str, digest: &str) -> ReferenceFacts {
    ReferenceFacts { path: path.to_string(), digest: digest.to_string() }
}

fn facts() -> FinalAuthorityFacts {
    FinalAuthorityFacts {
        passed: true,
        run_id: "run-1".to_string(),
        goal_id: "goal".to_string(),
        ticket_id: "T-1".to_string(),
        ticket_digest: "td".to_string(),
        eval_config_digest: Some("ecd".to_string()),
        approval: Some(ApprovalFacts {
            candidate_diff: reference("artifacts/diff.patch", "dd"),
            starting_head: "head".to_string(),
            policy_decision_digest: "pd".to_string(),
            canonical_digest: "ha".to_string(),
        }),
        evaluation_attempt: 2,
        intent_attempt: 2,
        testing_reference: reference("artifacts/07-testing.attempt-002.json", "tt"),
        testing_passed: true,
        testing_checks: vec![b"check-a".to_vec()],
        report_patch_id: "run-1".to_string(),
        report_goal_id: "goal".to_string(),
        report_passed: true,
        report_decision: EvalDecision::ApproveForHumanReview,
        report_checks: vec![b"check-a".to_vec()],
        loop_evidence: Some(LoopEvidenceFacts {
            run_id: "run-1".to_string(),
            ticket_id: "T-1".to_string(),
            ticket_digest: "td".to_string(),
            eval_config: reference("inputs/eval-config.json", "ecd"),
            candidate_diff: reference("artifacts/diff.patch", "dd"),
            starting_head: "head".to_string(),
            human_approval_digest: "ha".to_string(),
            policy_decision_digest: "pd".to_string(),
            testing_evidence: reference("artifacts/07-testing.attempt-002.json", "tt"),
        }),
    }
}

#[test]
fn final_authority_accepts_bound_facts_and_names_each_refusal() {
    assert!(verify_final_evaluation_authority(&facts()).is_ok());
    let mut f = facts();
    f.intent_attempt = 1;
    assert_eq!(
        verify_final_evaluation_authority(&f).unwrap_err().to_string(),
        "Testing evidence selects a cross-attempt execution intent"
    );
    let mut f = facts();
    f.loop_evidence = None;
    assert_eq!(
        verify_final_evaluation_authority(&f).unwrap_err().to_string(),
        "final EvalReport requires integrated loop evidence"
    );
    let mut f = facts();
    f.loop_evidence.as_mut().unwrap().starting_head = "other".to_string();
    assert_eq!(
        verify_final_evaluation_authority(&f).unwrap_err().to_string(),
        "EvalReport integrated bindings do not match the final LoopRun authority"
    );
    let mut f = facts();
    f.report_checks = vec![b"check-b".to_vec()];
    assert_eq!(
        verify_final_evaluation_authority(&f).unwrap_err().to_string(),
        "EvalReport checks do not exactly match ordered Testing evidence checks"
    );
    let mut f = facts();
    f.report_decision = EvalDecision::Reject;
    assert_eq!(
        verify_final_evaluation_authority(&f).unwrap_err().to_string(),
        "passing final authority cannot use a rejecting EvalReport"
    );
}

#[test]
fn inventory_counts_enforce_the_shared_tree_caps() {
    let start = InventoryCounts { entries: 0, total_bytes: 0 };
    assert_eq!(admit_entry(start).unwrap().entries, 1);
    assert!(admit_entry(InventoryCounts { entries: 4095, total_bytes: 0 }).is_ok());
    assert_eq!(
        admit_entry(InventoryCounts { entries: 4096, total_bytes: 0 }).unwrap_err().message,
        "run tree exceeds its 4096-entry cap"
    );
    assert_eq!(admit_directory(7).unwrap(), 8);
    assert_eq!(admit_directory(8).unwrap_err().message, "run tree exceeds its 8-directory depth cap");
    assert_eq!(admit_file_bytes(start, 32 * 1024 * 1024).unwrap().total_bytes, 32 * 1024 * 1024);
    assert_eq!(
        admit_file_bytes(InventoryCounts { entries: 1, total_bytes: 1 }, 32 * 1024 * 1024).unwrap_err().message,
        "run tree exceeds its 33554432-byte cap"
    );
    assert_eq!(
        admit_file_bytes(InventoryCounts { entries: 1, total_bytes: u64::MAX }, 1).unwrap_err().message,
        "run tree byte total overflowed"
    );
}

#[test]
fn file_entries_carry_length_and_digest() {
    match inventory_file_entry(b"abc") {
        RunTreeEntry::File { len, digest } => {
            assert_eq!(len, 3);
            assert_eq!(hex::encode(digest), ABC);
        }
        other => panic!("unexpected entry {other:?}"),
    }
    assert!(read_file_entry("a.json", 3, b"abc").is_ok());
    assert_eq!(
        read_file_entry("a.json", 2, b"abc").unwrap_err().message,
        "run tree file a.json changed length while it was inventoried"
    );
}

#[test]
fn run_authentication_binds_bytes_to_recorded_digests() {
    assert!(check_run_id("r1", "r1").is_ok());
    assert_eq!(check_run_id("r1", "r2").unwrap_err().message, "persisted run_id does not match the selected run ID");
    assert!(check_ticket_binding(b"abc", b"abc", ABC).is_ok());
    assert_eq!(
        check_ticket_binding(b"abc", b"abd", ABC).unwrap_err().message,
        "ticket input/snapshot bytes or digest do not match LoopRun authority"
    );
    assert!(check_ticket_binding(b"abc", b"abc", "00").is_err());
    assert!(check_policy_binding(b"abc", ABC).is_ok());
    assert_eq!(
        check_policy_binding(b"abd", ABC).unwrap_err().message,
        "policy input digest does not match LoopRun authority"
    );
    assert!(check_referenced_digest("inputs/config.json", ABC, b"abc").is_ok());
    assert_eq!(
        check_referenced_digest("inputs/config.json", "ff", b"abc").unwrap_err().message,
        format!("authenticated artifact inputs/config.json digest mismatch: expected ff, got {ABC}")
    );
    assert_eq!(check_development_reference(&Some("p".to_string()), &Some("d".to_string())).unwrap(), true);
    assert_eq!(check_development_reference(&None, &None).unwrap(), false);
    assert_eq!(
        check_development_reference(&Some("p".to_string()), &None).unwrap_err().message,
        "Development step artifact path/digest authority is malformed"
    );
    assert!(check_legacy_shape_supported(true, true, true, false).is_ok());
    assert!(check_legacy_shape_supported(true, true, true, true).is_err());
}

#[test]
fn loop_inspection_bounds_its_lists_and_reports_integrity() {
    assert!(final_authority_required("Promoted", true));
    assert!(!final_authority_required("Failed", false));
    assert!(!final_authority_required("Running", true));
    let exchange = ProviderExchangeInspection {
        exchange_index: 1,
        kind: "request".to_string(),
        phase: "initial".to_string(),
        outcome: None,
        ledger_head: true,
        verification: EvidenceClassification::Verified,
    };
    let parts = LoopInspectionParts {
        run_id: "run-1".to_string(),
        status: "Running".to_string(),
        current_step: "Testing".to_string(),
        run_digest: "rd".to_string(),
        run_directory: "/runs/run-1".to_string(),
        run_file: "/runs/run-1/run.json".to_string(),
        input_digests: vec![],
        candidate: None,
        provider: ProviderAttemptsInventory {
            attempts: vec![ProviderAttemptInspection { step: 0, attempt: 1, exchanges: vec![exchange] }],
            attempts_total: 3,
            exchanges_total: 5,
            maxima: vec![],
        },
        provider_ledger_head: Some("lh".to_string()),
        steps: vec![],
        artifact_history_total: 0,
        evaluation_prefix: vec![],
        evaluation_prefix_total: 2,
        integrity_messages: (0..70).map(|i| format!("m{i}")).collect(),
        ambiguity_messages: vec![],
    };
    let inspection = assemble_loop_inspection(parts);
    assert_eq!(inspection.command, "inspect");
    assert_eq!(inspection.integrity, InspectionIntegrity::Degraded);
    assert_eq!(inspection.integrity_messages.len(), 64);
    assert_eq!(inspection.integrity_messages[63], "m63");
    assert_eq!(inspection.bounds.integrity_messages_total, 70);
    assert_eq!(inspection.bounds.integrity_messages_truncated, 6);
    assert_eq!(inspection.bounds.provider_attempts_truncated, 2);
    assert_eq!(inspection.bounds.provider_exchanges_truncated, 4);
    assert_eq!(inspection.bounds.evaluation_prefix_truncated, 2);
    assert_eq!(inspection.provider_ledger_head.as_deref(), Some("lh"));
}

#[test]
fn referenced_paths_come_in_checking_order() {
    let s = |v: &str| v.to_string();
    let refs = RunReferences {
        step_artifact_paths: vec![Some(s("artifacts/01.json")), None, Some(s("artifacts/03.json"))],
        provider_record_paths: vec![s("provider/1.json")],
        eval_report_path: Some(s("artifacts/08-eval-report.json")),
        patch_intent_path: None,
        patch_evidence_path: Some(s("ignored-without-intent.json")),
        approval_paths: Some((s("a1"), s("a2"), s("a3"), s("a4"))),
        promotion_paths: None,
    };
    assert_eq!(
        referenced_paths(&refs),
        vec![
            s("artifacts/01.json"),
            s("artifacts/03.json"),
            s("provider/1.json"),
            s("artifacts/08-eval-report.json"),
            s("a1"),
            s("a2"),
            s("a3"),
            s("a4")
        ]
    );
    assert_eq!(
        unsafe_referenced_path("../x"),
        InspectError::Safety(s("run contains unsafe referenced path: ../x"))
    );
}

#[test]
fn intent_path_and_schema_decide_the_intent_version() {
    assert_eq!(
        intent_path_slot("artifacts/07-testing.attempt-002.execution-intent.json").unwrap(),
        (2, Spelling::Indexed, Kind::Intent)
    );
    assert_eq!(
        intent_path_slot("07-testing.execution-intent.json").unwrap_err(),
        "Approved evaluation intent path is not canonical"
    );
    let fixed = "artifacts/07-testing.execution-intent.json";
    assert_eq!(intent_schema(fixed, Some(1), false).unwrap(), IntentSchema::V1);
    assert_eq!(
        intent_schema("artifacts/07-testing.attempt-002.execution-intent.json", Some(1), true).unwrap_err(),
        "unsupported Approved evaluation intent schema or path"
    );
    assert_eq!(intent_schema(fixed, Some(2), true).unwrap(), IntentSchema::V2);
    assert_eq!(
        intent_schema(fixed, Some(2), false).unwrap_err(),
        "Approved evaluation intent v2 requires an explicit recovery member"
    );
    assert!(check_intent_attempt((2, Spelling::Indexed, Kind::Intent), 2).is_ok());
    assert_eq!(
        check_intent_attempt((2, Spelling::Indexed, Kind::Intent), 3).unwrap_err(),
        "Approved evaluation intent path does not match its exact attempt"
    );
}

#[test]
fn indexed_log_names_read_back_and_inventories_report_emptiness() {
    let paths = EvaluationAttemptPaths::indexed(2).unwrap();
    let out = paths.stdout(3);
    let err = paths.stderr(3);
    assert_eq!(err, out.replace(".stdout.log", ".stderr.log"));
    let name = |p: &str| p.strip_prefix("artifacts/").unwrap().chars().collect::<Vec<char>>();
    assert_eq!(parse_name(&name(&out)), Some((2, Spelling::Indexed, Kind::Stdout(3))));
    assert_eq!(parse_name(&name(&err)), Some((2, Spelling::Indexed, Kind::Stderr(3))));
    let entry = |n: &str| ArtifactEntry { name: n.to_string(), utf8: true, regular_file: true };
    let none = EvaluationAttemptInventory::load(&vec![entry("01-research.json")]).unwrap();
    assert!(none.is_empty());
    let some = EvaluationAttemptInventory::load(&vec![entry("07-testing.execution-intent.json")]).unwrap();
    assert!(!some.is_empty());
}
