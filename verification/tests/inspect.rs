use seaf_loop::inspect::{
    classify_digest, digest_bytes, inspect_evaluation_prefix, inspection_bounds,
    inspection_integrity, list_regular_artifacts, prompt_attempt_identity, role_artifact_identity,
    validate_run_id, ArtifactFilter, EvidenceClassification, InspectError, InspectionIntegrity,
    InventoryEntry, StepRecordSummary,
};

#[test]
fn role_artifact_attempt_name_uses_canonical_minimum_width_without_a_three_digit_cap() {
    assert_eq!(
        role_artifact_identity("01-research", "artifacts/01-research.attempt-1000.yaml"),
        Some((1000, "yaml".to_string()))
    );
    assert_eq!(
        role_artifact_identity("01-research", "artifacts/01-research.attempt-02.yaml"),
        None
    );
    assert_eq!(
        role_artifact_identity("01-research", "artifacts/01-research.attempt-0002.yaml"),
        None
    );
}

#[test]
fn role_artifact_identity_reads_first_and_retried_attempts() {
    assert_eq!(
        role_artifact_identity("01-research", "artifacts/01-research.json"),
        Some((1, "json".to_string()))
    );
    assert_eq!(
        role_artifact_identity("01-research", "artifacts/01-research.attempt-002.md"),
        Some((2, "md".to_string()))
    );
    assert_eq!(role_artifact_identity("01-research", "artifacts/01-research.attempt-001.md"), None);
    assert_eq!(role_artifact_identity("01-research", "artifacts/01-research.a.b"), None);
    assert_eq!(role_artifact_identity("01-research", "01-research.json"), None);
    assert_eq!(role_artifact_identity("01-research", "artifacts/01-research."), None);
}

#[test]
fn prompt_attempts_start_at_the_plain_name() {
    assert_eq!(prompt_attempt_identity("02-plan", "02-plan.prompt.md"), Some(1));
    assert_eq!(prompt_attempt_identity("02-plan", "02-plan.attempt-003.prompt.md"), Some(3));
    assert_eq!(prompt_attempt_identity("02-plan", "02-plan.attempt-001.prompt.md"), None);
    assert_eq!(prompt_attempt_identity("02-plan", "02-plan.attempt-03.prompt.md"), None);
    assert_eq!(prompt_attempt_identity("02-plan", "02-plan.attempt-4294967296.prompt.md"), None);
    assert_eq!(prompt_attempt_identity("02-plan", "03-plan.prompt.md"), None);
}

#[test]
fn run_ids_are_plain_ascii_names() {
    assert!(validate_run_id("run-1_a").is_ok());
    for bad in ["", ".", "..", " run", "run/1", "run.1", "rün"] {
        let error = validate_run_id(bad).unwrap_err();
        assert_eq!(
            error,
            InspectError::Safety(
                "invalid run ID; use only ASCII letters, numbers, '-' or '_'".to_string()
            )
        );
        assert!(error.to_string().starts_with("unsafe loop inspection authority: "));
    }
}

#[test]
fn evidence_is_classified_by_its_digest() {
    let bytes = b"abc";
    let digest = "ba7816bf8f01cfea414140de5dae2223b00361a396177a9cb410ff61f20015ad";
    assert_eq!(classify_digest(Some(bytes), digest), EvidenceClassification::Verified);
    assert_eq!(classify_digest(Some(b"abd"), digest), EvidenceClassification::Tampered);
    assert_eq!(classify_digest(None, digest), EvidenceClassification::Missing);
}

#[test]
fn bounds_report_totals_and_truncation() {
    let bounds = inspection_bounds(70, 64, 10, 10, 5, 7, 65, 64, 100, 3);
    assert_eq!(bounds.provider_attempts_truncated, 6);
    assert_eq!(bounds.provider_exchanges_truncated, 0);
    assert_eq!(bounds.artifact_history_total, 7);
    assert_eq!(bounds.artifact_history_truncated, 0);
    assert_eq!(bounds.evaluation_prefix_truncated, 1);
    assert_eq!(bounds.integrity_messages_truncated, 36);
    assert_eq!(bounds.ambiguity_messages_truncated, 0);
    assert_eq!(inspection_integrity(0, 0), InspectionIntegrity::Verified);
    assert_eq!(inspection_integrity(0, 1), InspectionIntegrity::Degraded);
}

fn listed(name: &str) -> InventoryEntry {
    InventoryEntry {
        name: name.to_string(),
        display_path: format!("run/artifacts/{name}"),
        utf8: true,
        regular_file: true,
    }
}

#[test]
fn listing_keeps_priority_paths_and_the_lexical_prefix_of_the_rest() {
    let entries: Vec<InventoryEntry> =
        ["07-testing.d.json", "07-testing.a.json", "07-testing.c.json", "01-research.json", "07-testing.b.json"]
            .iter()
            .map(|name| listed(name))
            .collect();
    let (paths, total) = list_regular_artifacts(
        &entries,
        3,
        &vec!["artifacts/07-testing.d.json".to_string()],
        &ArtifactFilter::EvaluationPrefix,
    )
    .unwrap();
    assert_eq!(total, 4);
    assert_eq!(
        paths,
        vec![
            "artifacts/07-testing.a.json".to_string(),
            "artifacts/07-testing.b.json".to_string(),
            "artifacts/07-testing.d.json".to_string(),
        ]
    );
}

#[test]
fn listing_refuses_an_entry_that_is_not_a_regular_file() {
    let mut link = listed("07-testing.json");
    link.regular_file = false;
    let error = list_regular_artifacts(&vec![link], 8, &Vec::new(), &ArtifactFilter::EvaluationPrefix)
        .unwrap_err();
    assert_eq!(
        error,
        InspectError::Safety("artifact inventory contains unsafe entry: run/artifacts/07-testing.json".to_string())
    );
    let mut odd = listed("07-testing.json");
    odd.utf8 = false;
    let error = list_regular_artifacts(&vec![odd], 8, &Vec::new(), &ArtifactFilter::EvaluationPrefix)
        .unwrap_err();
    assert_eq!(
        error,
        InspectError::Safety("artifact inventory contains a non-UTF-8 name".to_string())
    );
}

#[test]
fn evaluation_prefix_classifies_listed_and_missing_current_paths() {
    let bytes = b"testing evidence".to_vec();
    let records = vec![
        StepRecordSummary { evaluation_step: false, artifact_path: Some("artifacts/01-research.json".to_string()), artifact_digest: None },
        StepRecordSummary {
            evaluation_step: true,
            artifact_path: Some("artifacts/07-testing.json".to_string()),
            artifact_digest: Some(digest_bytes(&bytes)),
        },
    ];
    let eval_report = Some("artifacts/08-eval-report.json".to_string());
    let artifacts = vec!["artifacts/07-testing.json".to_string(), "artifacts/07-testing.stdout.log".to_string()];
    let reads = vec![Some(bytes.clone()), None];
    let mut messages = Vec::new();
    let (inventory, total) =
        inspect_evaluation_prefix(&records, &eval_report, false, &artifacts, 2, &reads, &mut messages);
    assert_eq!(total, 3);
    let summary: Vec<(&str, EvidenceClassification)> =
        inventory.iter().map(|entry| (entry.path.as_str(), entry.classification)).collect();
    assert_eq!(
        summary,
        vec![
            ("artifacts/07-testing.json", EvidenceClassification::Current),
            ("artifacts/07-testing.stdout.log", EvidenceClassification::Historical),
            ("artifacts/08-eval-report.json", EvidenceClassification::Missing),
        ]
    );
    assert_eq!(messages, vec!["evaluation prefix artifacts/08-eval-report.json is missing".to_string()]);
}

#[test]
fn evaluation_prefix_reports_tampered_evidence_in_lowercase() {
    let records = vec![StepRecordSummary {
        evaluation_step: true,
        artifact_path: Some("artifacts/07-testing.json".to_string()),
        artifact_digest: Some(digest_bytes(b"expected")),
    }];
    let artifacts = vec!["artifacts/07-testing.json".to_string()];
    let mut messages = Vec::new();
    let (inventory, total) = inspect_evaluation_prefix(
        &records,
        &None,
        true,
        &artifacts,
        1,
        &vec![Some(b"other".to_vec())],
        &mut messages,
    );
    assert_eq!(total, 1);
    assert_eq!(inventory[0].classification, EvidenceClassification::Tampered);
    assert_eq!(messages, vec!["evaluation prefix artifacts/07-testing.json is tampered".to_string()]);
}
