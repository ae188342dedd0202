use seaf_loop::evaluation_attempt::Spelling;
use seaf_loop::eval_engine::EvalCommandConfig;
use seaf_loop::digest::digest_hex;
use seaf_loop::evaluation_storage::{
    adoption_report_state, derive_fresh_evaluation_storage_commitment,
    derive_invalidation_source_activation_commitment, validate_pre_spawn_evaluation_prefix,
    CompletedCheckLogs, InvalidationSourceSummary, next_recovery_id, normal_prefix_commitment, recovery_path, recovery_source_path,
    recovery_transition_commitment, AdoptionReportState, AttemptPathSet, DurableDecisionState,
    EvaluationCommitmentPrefix, EvaluationRecoveryTransition, EvaluationRecoveryTransitionKind,
    StorageCommitment, EVALUATION_ARTIFACT_CAP, FINAL_RUN_REPLACEMENT_CAP,
};

#[test]
fn durable_recovery_transition_table_has_literal_remaining_capacity() {
    let report = "artifacts/08-eval-report.attempt-003.json";
    let cases = vec![
        (
            "v2 CreateMissing source",
            EvaluationRecoveryTransition::Active {
                recovery_id: 7,
                kind: EvaluationRecoveryTransitionKind::AdoptionCreateMissing {
                    report_path: report.into(),
                },
                decision: DurableDecisionState::Missing,
                report: AdoptionReportState::Missing,
            },
            StorageCommitment {
                permanent_bytes: 4_194_304,
                transient_bytes: 2_097_152,
                permanent_entries: 2,
                transient_entries: 1,
                consumable_permanent_paths: vec![
                    ("artifacts/recovery-007.json".into(), 2_097_152),
                    (report.into(), 2_097_152),
                ],
                consumable_transient_path: Some("run.json".into()),
            },
        ),
        (
            "v2 CreateMissing decision",
            EvaluationRecoveryTransition::Active {
                recovery_id: 7,
                kind: EvaluationRecoveryTransitionKind::AdoptionCreateMissing {
                    report_path: report.into(),
                },
                decision: DurableDecisionState::Verified,
                report: AdoptionReportState::Missing,
            },
            StorageCommitment {
                permanent_bytes: 2_097_152,
                transient_bytes: 2_097_152,
                permanent_entries: 1,
                transient_entries: 1,
                consumable_permanent_paths: vec![(report.into(), 2_097_152)],
                consumable_transient_path: Some("run.json".into()),
            },
        ),
        (
            "v2 CreateMissing unauthenticated report",
            EvaluationRecoveryTransition::Active {
                recovery_id: 7,
                kind: EvaluationRecoveryTransitionKind::AdoptionCreateMissing {
                    report_path: report.into(),
                },
                decision: DurableDecisionState::Missing,
                report: AdoptionReportState::PresentUnauthenticated { bytes: 17 },
            },
            StorageCommitment {
                permanent_bytes: 4_194_287,
                transient_bytes: 2_097_152,
                permanent_entries: 1,
                transient_entries: 1,
                consumable_permanent_paths: vec![("artifacts/recovery-007.json".into(), 2_097_152)],
                consumable_transient_path: Some("run.json".into()),
            },
        ),
        (
            "v2 CreateMissing report",
            EvaluationRecoveryTransition::Active {
                recovery_id: 7,
                kind: EvaluationRecoveryTransitionKind::AdoptionCreateMissing {
                    report_path: report.into(),
                },
                decision: DurableDecisionState::Verified,
                report: AdoptionReportState::Verified,
            },
            StorageCommitment {
                permanent_bytes: 0,
                transient_bytes: 2_097_152,
                permanent_entries: 0,
                transient_entries: 1,
                consumable_permanent_paths: vec![],
                consumable_transient_path: Some("run.json".into()),
            },
        ),
        (
            "v2 VerifyExisting source",
            EvaluationRecoveryTransition::Active {
                recovery_id: 7,
                kind: EvaluationRecoveryTransitionKind::AdoptionVerifyExisting,
                decision: DurableDecisionState::Missing,
                report: AdoptionReportState::NotApplicable,
            },
            StorageCommitment {
                permanent_bytes: 2_097_152,
                transient_bytes: 2_097_152,
                permanent_entries: 1,
                transient_entries: 1,
                consumable_permanent_paths: vec![("artifacts/recovery-007.json".into(), 2_097_152)],
                consumable_transient_path: Some("run.json".into()),
            },
        ),
        (
            "v2 VerifyExisting decision",
            EvaluationRecoveryTransition::Active {
                recovery_id: 7,
                kind: EvaluationRecoveryTransitionKind::AdoptionVerifyExisting,
                decision: DurableDecisionState::Verified,
                report: AdoptionReportState::NotApplicable,
            },
            StorageCommitment {
                permanent_bytes: 0,
                transient_bytes: 2_097_152,
                permanent_entries: 0,
                transient_entries: 1,
                consumable_permanent_paths: vec![],
                consumable_transient_path: Some("run.json".into()),
            },
        ),
        (
            "v3 source",
            EvaluationRecoveryTransition::Active {
                recovery_id: 7,
                kind: EvaluationRecoveryTransitionKind::Invalidation,
                decision: DurableDecisionState::Missing,
                report: AdoptionReportState::NotApplicable,
            },
            StorageCommitment {
                permanent_bytes: 2_097_152,
                transient_bytes: 2_097_152,
                permanent_entries: 1,
                transient_entries: 1,
                consumable_permanent_paths: vec![("artifacts/recovery-007.json".into(), 2_097_152)],
                consumable_transient_path: Some("run.json".into()),
            },
        ),
        (
            "v3 decision",
            EvaluationRecoveryTransition::Active {
                recovery_id: 7,
                kind: EvaluationRecoveryTransitionKind::Invalidation,
                decision: DurableDecisionState::Verified,
                report: AdoptionReportState::NotApplicable,
            },
            StorageCommitment {
                permanent_bytes: 0,
                transient_bytes: 2_097_152,
                permanent_entries: 0,
                transient_entries: 1,
                consumable_permanent_paths: vec![],
                consumable_transient_path: Some("run.json".into()),
            },
        ),
    ];

    for (label, transition, expected) in cases {
        assert_eq!(
            recovery_transition_commitment(transition).unwrap(),
            expected,
            "{label}"
        );
    }
}

#[test]
fn impossible_report_states_and_oversized_partial_reports_are_refused() {
    let impossible = EvaluationRecoveryTransition::Active {
        recovery_id: 1,
        kind: EvaluationRecoveryTransitionKind::Invalidation,
        decision: DurableDecisionState::Missing,
        report: AdoptionReportState::Missing,
    };
    assert_eq!(
        recovery_transition_commitment(impossible).unwrap_err(),
        "evaluation recovery transition has an impossible report state"
    );
    let oversized = EvaluationRecoveryTransition::Active {
        recovery_id: 1,
        kind: EvaluationRecoveryTransitionKind::AdoptionCreateMissing {
            report_path: "artifacts/08-eval-report.json".into(),
        },
        decision: DurableDecisionState::Verified,
        report: AdoptionReportState::PresentUnauthenticated {
            bytes: EVALUATION_ARTIFACT_CAP + 1,
        },
    };
    assert_eq!(
        recovery_transition_commitment(oversized).unwrap_err(),
        "adoption EvalReport exceeds its artifact limit"
    );
}

#[test]
fn recovery_ids_and_paths_follow_the_latest_recovery() {
    assert_eq!(next_recovery_id(None).unwrap(), 1);
    assert_eq!(next_recovery_id(Some(41)).unwrap(), 42);
    assert_eq!(
        next_recovery_id(Some(u32::MAX)).unwrap_err(),
        "recovery sequence is exhausted"
    );
    assert_eq!(recovery_path(7), "artifacts/recovery-007.json");
    assert_eq!(recovery_source_path(1234), "artifacts/recovery-1234.source-run.json");
}

fn config() -> Vec<EvalCommandConfig> {
    [None, Some(1), Some(1024 * 1024)]
        .into_iter()
        .enumerate()
        .map(|(index, max_output_bytes)| EvalCommandConfig {
            name: format!("check-{index}"),
            command: "true".into(),
            cwd: None,
            env: Vec::new(),
            timeout_ms: None,
            max_output_bytes,
        })
        .collect()
}

fn prefix() -> EvaluationCommitmentPrefix {
    EvaluationCommitmentPrefix {
        attempt: 1,
        intent: "artifacts/07-testing.attempt-001.execution-intent.json".into(),
        testing: None,
        report: None,
        logs: Vec::new(),
    }
}

fn sizes(
    prefix: &EvaluationCommitmentPrefix,
    size: Result<u64, String>,
) -> Vec<(Result<u64, String>, Result<u64, String>)> {
    prefix
        .logs
        .iter()
        .map(|_| (size.clone(), size.clone()))
        .collect()
}

#[test]
fn normal_prefix_reserves_and_consumes_each_exact_output_and_recovery_slot() {
    let config = config();
    let mut prefix = prefix();
    let initial = normal_prefix_commitment(
        None,
        &prefix,
        &config,
        &sizes(&prefix, Err("intent-only prefix has no physical logs".into())),
    )
    .unwrap();
    let log_bytes = 2 * (64 * 1024 + 1 + 1024 * 1024);
    assert_eq!(
        initial.permanent_bytes,
        u64::try_from(log_bytes).unwrap() + 4 * EVALUATION_ARTIFACT_CAP
    );
    assert_eq!(initial.permanent_entries, 10);
    assert_eq!(initial.transient_bytes, FINAL_RUN_REPLACEMENT_CAP);
    assert_eq!(initial.transient_entries, 1);
    assert_eq!(
        initial.consumable_permanent_paths,
        vec![
            (
                "artifacts/07-testing.attempt-001.check-001.stdout.log".into(),
                64 * 1024
            ),
            (
                "artifacts/07-testing.attempt-001.check-001.stderr.log".into(),
                64 * 1024
            ),
            ("artifacts/07-testing.attempt-001.check-002.stdout.log".into(), 1),
            ("artifacts/07-testing.attempt-001.check-002.stderr.log".into(), 1),
            (
                "artifacts/07-testing.attempt-001.check-003.stdout.log".into(),
                1024 * 1024
            ),
            (
                "artifacts/07-testing.attempt-001.check-003.stderr.log".into(),
                1024 * 1024
            ),
            (
                "artifacts/07-testing.attempt-001.json".into(),
                EVALUATION_ARTIFACT_CAP
            ),
            (
                "artifacts/08-eval-report.attempt-001.json".into(),
                EVALUATION_ARTIFACT_CAP
            ),
            (
                "artifacts/recovery-001.source-run.json".into(),
                EVALUATION_ARTIFACT_CAP
            ),
            ("artifacts/recovery-001.json".into(), EVALUATION_ARTIFACT_CAP),
        ]
    );
    assert_eq!(
        initial.consumable_transient_path.as_deref(),
        Some("run.json")
    );

    prefix.logs.push((
        Some("artifacts/07-testing.attempt-001.check-001.stdout.log".into()),
        None,
    ));
    let trailing_stdout =
        normal_prefix_commitment(None, &prefix, &config, &sizes(&prefix, Ok(1))).unwrap();
    assert_eq!(trailing_stdout.permanent_bytes, initial.permanent_bytes - 1);
    assert_eq!(trailing_stdout.permanent_entries, 9);
    assert_eq!(
        1 + trailing_stdout.permanent_bytes,
        initial.permanent_bytes,
        "an unauthenticated one-byte same-name log must retain the other 65,535 bytes"
    );
    assert!(!trailing_stdout
        .consumable_permanent_paths
        .iter()
        .any(|(path, _)| path.ends_with("check-001.stdout.log")));

    prefix.logs.clear();
    for check in 1..=3_u32 {
        prefix.logs.push((
            Some(format!(
                "artifacts/07-testing.attempt-001.check-{check:03}.stdout.log"
            )),
            Some(format!(
                "artifacts/07-testing.attempt-001.check-{check:03}.stderr.log"
            )),
        ));
    }
    let logs_complete =
        normal_prefix_commitment(None, &prefix, &config, &sizes(&prefix, Ok(1))).unwrap();
    assert_eq!(
        logs_complete.permanent_bytes,
        u64::try_from(log_bytes).unwrap() - 6 + 4 * EVALUATION_ARTIFACT_CAP
    );
    assert_eq!(logs_complete.permanent_entries, 4);

    prefix.testing = Some("artifacts/07-testing.attempt-001.json".into());
    let testing = normal_prefix_commitment(
        None,
        &prefix,
        &config,
        &sizes(&prefix, Err("Testing authenticates all log slots".into())),
    )
    .unwrap();
    assert_eq!(testing.permanent_bytes, 3 * EVALUATION_ARTIFACT_CAP);
    assert_eq!(testing.permanent_entries, 3);
    assert!(testing
        .consumable_permanent_paths
        .iter()
        .any(|(path, _)| path == "artifacts/recovery-001.source-run.json"));

    prefix.report = Some("artifacts/08-eval-report.attempt-001.json".into());
    let report = normal_prefix_commitment(
        None,
        &prefix,
        &config,
        &sizes(&prefix, Err("Testing authenticates all log slots".into())),
    )
    .unwrap();
    assert_eq!(report.permanent_bytes, 2 * EVALUATION_ARTIFACT_CAP);
    assert_eq!(report.permanent_entries, 2);
    assert_eq!(
        report.consumable_permanent_paths,
        vec![
            ("artifacts/recovery-001.source-run.json".into(), 2_097_152,),
            ("artifacts/recovery-001.json".into(), 2_097_152),
        ]
    );
    assert_eq!(report.transient_bytes, FINAL_RUN_REPLACEMENT_CAP);
}

#[test]
fn testing_cannot_release_missing_log_slots() {
    let mut prefix = prefix();
    prefix.testing = Some("artifacts/07-testing.attempt-001.json".into());
    let error = normal_prefix_commitment(None, &prefix, &config(), &Vec::new()).unwrap_err();
    assert!(error.contains("complete evaluation logs"), "{error}");
}

#[test]
fn prefix_errors_name_the_broken_rule() {
    let config = config();
    let mut prefix = prefix();
    prefix.intent = "artifacts/07-testing.attempt-002.execution-intent.json".into();
    assert_eq!(
        normal_prefix_commitment(None, &prefix, &config, &Vec::new()).unwrap_err(),
        "evaluation intent path is not canonical for its attempt"
    );
    let mut prefix = self::prefix();
    prefix.logs.push((Some("artifacts/07-testing.check-001.stdout.log".into()), None));
    assert_eq!(
        normal_prefix_commitment(None, &prefix, &config, &sizes(&prefix, Ok(1))).unwrap_err(),
        "evaluation stdout path is not canonical for its attempt"
    );
    let mut prefix = self::prefix();
    prefix.logs.push((
        Some("artifacts/07-testing.attempt-001.check-001.stdout.log".into()),
        None,
    ));
    assert_eq!(
        normal_prefix_commitment(None, &prefix, &config, &sizes(&prefix, Ok(64 * 1024 + 1)))
            .unwrap_err(),
        "evaluation stdout exceeds its normalized limit"
    );
    let mut prefix = self::prefix();
    prefix.report = Some("artifacts/08-eval-report.attempt-001.json".into());
    assert_eq!(
        normal_prefix_commitment(None, &prefix, &config, &Vec::new()).unwrap_err(),
        "EvalReport cannot precede Testing evidence"
    );
    let prefix = self::prefix();
    assert_eq!(
        normal_prefix_commitment(Some(u32::MAX), &prefix, &config, &Vec::new()).unwrap_err(),
        "recovery sequence is exhausted"
    );
    let fixed = EvaluationCommitmentPrefix {
        attempt: 1,
        intent: "artifacts/07-testing.execution-intent.json".into(),
        testing: None,
        report: None,
        logs: Vec::new(),
    };
    let commitment = normal_prefix_commitment(None, &fixed, &config, &Vec::new()).unwrap();
    assert_eq!(
        commitment.consumable_permanent_paths[0].0,
        "artifacts/07-testing.check-001.stdout.log"
    );
    assert_eq!(
        commitment.consumable_permanent_paths[6].0,
        "artifacts/07-testing.json"
    );
}

#[test]
fn fresh_commitment_matches_the_intent_only_prefix() {
    let config = config();
    let fresh = derive_fresh_evaluation_storage_commitment(
        true,
        false,
        None,
        1,
        "artifacts/07-testing.attempt-001.execution-intent.json",
        &Ok(()),
        None,
        &config,
    )
    .unwrap();
    let expected = normal_prefix_commitment(None, &prefix(), &config, &Vec::new()).unwrap();
    assert_eq!(fresh, expected);
}

#[test]
fn fresh_commitment_requires_authority_and_the_exact_next_attempt() {
    let config = config();
    let intent = "artifacts/07-testing.attempt-003.execution-intent.json";
    let cases: Vec<(bool, bool, Option<u32>, u32, Result<(), String>, &str)> = vec![
        (false, false, Some(2), 3, Ok(()), "fresh evaluation commitment requires exact Approved authority"),
        (true, true, Some(2), 3, Ok(()), "fresh evaluation commitment target attempt is already occupied"),
        (true, false, Some(u32::MAX), 3, Ok(()), "evaluation attempt sequence is exhausted"),
        (true, false, Some(1), 3, Ok(()), "fresh evaluation commitment target is not the exact next attempt"),
        (true, false, Some(2), 3, Err("intent drifted".to_string()), "intent drifted"),
    ];
    for (approved, occupied, latest, attempt, check, message) in cases {
        assert_eq!(
            derive_fresh_evaluation_storage_commitment(
                approved, occupied, latest, attempt, intent, &check, None, &config
            )
            .unwrap_err(),
            message
        );
    }
    assert!(derive_fresh_evaluation_storage_commitment(true, false, Some(2), 3, intent, &Ok(()), Some(4), &config).is_ok());
}

#[test]
fn invalidation_source_activation_reserves_the_decision_and_run_replacement() {
    let source = Ok(InvalidationSourceSummary { schema_version: 3, recovery_id: 5, binds_current_run: true });
    let commitment = derive_invalidation_source_activation_commitment(
        5,
        "artifacts/recovery-005.source-run.json",
        3,
        &source,
    );
    assert_eq!(
        commitment,
        Ok(StorageCommitment {
            permanent_bytes: EVALUATION_ARTIFACT_CAP,
            transient_bytes: FINAL_RUN_REPLACEMENT_CAP,
            permanent_entries: 1,
            transient_entries: 1,
            consumable_permanent_paths: vec![(recovery_path(5), EVALUATION_ARTIFACT_CAP)],
            consumable_transient_path: Some("run.json".into()),
        })
    );
    assert_eq!(recovery_source_path(5), "artifacts/recovery-005.source-run.json");
    let stale = Ok(InvalidationSourceSummary { schema_version: 3, recovery_id: 5, binds_current_run: false });
    assert_eq!(
        derive_invalidation_source_activation_commitment(5, "artifacts/recovery-005.source-run.json", 3, &stale),
        Err("evaluation invalidation source does not bind exact current authority".to_string())
    );
    assert_eq!(
        derive_invalidation_source_activation_commitment(5, "artifacts/recovery-004.source-run.json", 3, &source),
        Err("evaluation invalidation source does not bind exact current authority".to_string())
    );
    assert_eq!(
        derive_invalidation_source_activation_commitment(5, "x", 3, &Err("not canonical".to_string())),
        Err("not canonical".to_string())
    );
}

#[test]
fn adoption_report_state_follows_the_decision_reference() {
    let path = "artifacts/08-eval-report.attempt-003.json";
    let bytes = b"{}".to_vec();
    let reference = Some((path.to_string(), digest_hex(&bytes)));
    assert_eq!(adoption_report_state(path, None, &reference, &None), AdoptionReportState::Missing);
    assert_eq!(
        adoption_report_state(path, Some(2), &reference, &Some(bytes.clone())),
        AdoptionReportState::Verified
    );
    assert_eq!(
        adoption_report_state(path, Some(2), &None, &Some(bytes.clone())),
        AdoptionReportState::PresentUnauthenticated { bytes: 2 }
    );
    assert_eq!(
        adoption_report_state(path, Some(3), &reference, &Some(b"{ }".to_vec())),
        AdoptionReportState::PresentUnauthenticated { bytes: 3 }
    );
}

fn completed_check(stdout: &[u8], stderr: &[u8]) -> CompletedCheckLogs {
    CompletedCheckLogs {
        stdout_path: Some("artifacts/07-testing.attempt-001.check-001.stdout.log".into()),
        stdout_digest: Some(digest_hex(stdout)),
        stderr_path: Some("artifacts/07-testing.attempt-001.check-001.stderr.log".into()),
        stderr_digest: Some(digest_hex(stderr)),
    }
}

fn published_prefix() -> EvaluationCommitmentPrefix {
    let mut prefix = prefix();
    prefix.logs.push((
        Some("artifacts/07-testing.attempt-001.check-001.stdout.log".into()),
        Some("artifacts/07-testing.attempt-001.check-001.stderr.log".into()),
    ));
    prefix
}

#[test]
fn pre_spawn_prefix_holds_exactly_the_completed_logs() {
    let completed = vec![completed_check(b"out", b"err")];
    let reads = vec![(Ok(b"out".to_vec()), Ok(b"err".to_vec()))];
    assert_eq!(
        validate_pre_spawn_evaluation_prefix(&Ok(Some(published_prefix())), 1, &completed, &reads),
        Ok(())
    );
    let substituted = vec![(Ok(b"out".to_vec()), Ok(b"changed".to_vec()))];
    assert_eq!(
        validate_pre_spawn_evaluation_prefix(&Ok(Some(published_prefix())), 1, &completed, &substituted),
        Err("completed evaluation stderr bytes were substituted".to_string())
    );
    let mut moved = completed_check(b"out", b"err");
    moved.stdout_path = Some("artifacts/07-testing.attempt-001.check-009.stdout.log".into());
    assert_eq!(
        validate_pre_spawn_evaluation_prefix(&Ok(Some(published_prefix())), 1, &vec![moved], &reads),
        Err("completed evaluation stdout path was substituted".to_string())
    );
    let mut lost = completed_check(b"out", b"err");
    lost.stdout_digest = None;
    assert_eq!(
        validate_pre_spawn_evaluation_prefix(&Ok(Some(published_prefix())), 1, &vec![lost], &reads),
        Err("completed evaluation stdout lost durable authority".to_string())
    );
}

#[test]
fn pre_spawn_prefix_refuses_surplus_or_foreign_artifacts() {
    let completed = vec![completed_check(b"out", b"err")];
    let reads = vec![(Ok(b"out".to_vec()), Ok(b"err".to_vec()))];
    assert_eq!(
        validate_pre_spawn_evaluation_prefix(&Ok(None), 1, &completed, &reads),
        Err("pre-spawn evaluation prefix lost execution intent".to_string())
    );
    assert_eq!(
        validate_pre_spawn_evaluation_prefix(&Ok(Some(published_prefix())), 2, &completed, &reads),
        Err("pre-spawn evaluation prefix has unauthenticated or surplus artifacts".to_string())
    );
    assert_eq!(
        validate_pre_spawn_evaluation_prefix(&Ok(Some(published_prefix())), 1, &Vec::new(), &Vec::new()),
        Err("pre-spawn evaluation prefix has unauthenticated or surplus artifacts".to_string())
    );
    assert_eq!(
        validate_pre_spawn_evaluation_prefix(&Err("inventory refused".into()), 1, &completed, &reads),
        Err("inventory refused".to_string())
    );
}

#[test]
fn attempt_path_sets_follow_the_spelling() {
    let fixed = AttemptPathSet::for_spelling(1, Spelling::Fixed).unwrap();
    assert_eq!(fixed.testing, "artifacts/07-testing.json");
    assert_eq!(fixed.report, "artifacts/08-eval-report.json");
    assert!(fixed.fixed);
    assert_eq!(
        AttemptPathSet::for_spelling(2, Spelling::Fixed).unwrap_err(),
        "evaluation recovery prefix spelling is invalid"
    );
    let indexed = AttemptPathSet::for_spelling(3, Spelling::Indexed).unwrap();
    assert_eq!(indexed.testing, "artifacts/07-testing.attempt-003.json");
    assert_eq!(indexed.report, "artifacts/08-eval-report.attempt-003.json");
    assert_eq!(indexed.stdout(2), "artifacts/07-testing.attempt-003.check-002.stdout.log");
    assert_eq!(indexed.stderr(2), "artifacts/07-testing.attempt-003.check-002.stderr.log");
    let from_intent =
        AttemptPathSet::from_intent("artifacts/07-testing.attempt-003.execution-intent.json", 3).unwrap();
    assert_eq!(from_intent.testing, indexed.testing);
}
