use seaf_loop::inspect::{digest_bytes, EvidenceClassification, InspectError};
use seaf_loop::inspect_run::{
    final_evaluation_authority, inspect_candidate, inspect_inputs, CandidateObservation,
    CandidateRecord, RecordedInputDigests,
};
use seaf_loop::inspect_steps::FinalEvaluationAuthority;
use seaf_loop::provider_attempts::{classify_provider_error, ProviderErrorSummary};

#[test]
fn inputs_are_listed_by_name_and_damage_is_reported_in_lowercase() {
    let digests = RecordedInputDigests {
        ticket: digest_bytes(b"ticket"),
        policy: digest_bytes(b"policy"),
        config: digest_bytes(b"config"),
        repository: digest_bytes(b"repository"),
        eval_config: None,
    };
    let reads = vec![
        Some(b"ticket".to_vec()),
        Some(b"changed".to_vec()),
        None,
        Some(b"repository".to_vec()),
        None,
    ];
    let mut messages = Vec::new();
    let inputs = inspect_inputs(&digests, &reads, &mut messages);
    let summary: Vec<(&str, &str, EvidenceClassification)> = inputs
        .iter()
        .map(|(name, input)| (name.as_str(), input.path.as_str(), input.verification))
        .collect();
    assert_eq!(
        summary,
        vec![
            ("config", "inputs/config.json", EvidenceClassification::Missing),
            ("policy", "inputs/policy.json", EvidenceClassification::Tampered),
            ("repository", "inputs/repository.json", EvidenceClassification::Verified),
            ("ticket", "inputs/ticket.json", EvidenceClassification::Verified),
        ]
    );
    assert_eq!(
        messages,
        vec!["immutable input policy is tampered".to_string(), "immutable input config is missing".to_string()]
    );
}

#[test]
fn recorded_eval_config_is_inspected_too() {
    let digests = RecordedInputDigests {
        ticket: digest_bytes(b"t"),
        policy: digest_bytes(b"p"),
        config: digest_bytes(b"c"),
        repository: digest_bytes(b"r"),
        eval_config: Some(digest_bytes(b"e")),
    };
    let reads = vec![Some(b"t".to_vec()), Some(b"p".to_vec()), Some(b"c".to_vec()), Some(b"r".to_vec()), Some(b"e".to_vec())];
    let mut messages = Vec::new();
    let inputs = inspect_inputs(&digests, &reads, &mut messages);
    assert_eq!(inputs[1].0, "eval_config");
    assert_eq!(inputs[1].1.path, "inputs/eval-config.json");
    assert_eq!(inputs.len(), 5);
    assert!(messages.is_empty());
}

fn record(lifecycle: &str) -> CandidateRecord {
    CandidateRecord {
        lifecycle: lifecycle.to_string(),
        path: "/work/candidate".to_string(),
        starting_head: "a".repeat(40),
        starting_tree: "b".repeat(40),
        candidate_head: "c".repeat(40),
        candidate_tree: "d".repeat(40),
        candidate_diff_digest: digest_bytes(b"diff"),
        patch_phase: None,
    }
}

fn present(head: &str, diff: &[u8], untracked: &[u8]) -> CandidateObservation {
    CandidateObservation::Present {
        real_directory: true,
        toplevel_matches: Ok(true),
        head: Ok(head.to_string()),
        staged_diff: Ok(diff.to_vec()),
        worktree_matches_index: Ok(true),
        untracked: Ok(untracked.to_vec()),
    }
}

#[test]
fn candidate_matching_its_record_is_verified() {
    let mut messages = Vec::new();
    let inspection = inspect_candidate(&Some(record("Ready")), &present(&"c".repeat(40), b"diff", b""), &mut messages)
        .unwrap()
        .unwrap();
    assert_eq!(inspection.verification, EvidenceClassification::Verified);
    assert_eq!(inspection.observed_head, Some("c".repeat(40)));
    assert_eq!(inspection.observed_staged_diff_digest, Some(digest_bytes(b"diff")));
    assert!(messages.is_empty());
}

#[test]
fn candidate_with_untracked_files_is_tampered() {
    let mut messages = Vec::new();
    let inspection =
        inspect_candidate(&Some(record("Ready")), &present(&"c".repeat(40), b"diff", b"new.txt\0"), &mut messages)
            .unwrap()
            .unwrap();
    assert_eq!(inspection.verification, EvidenceClassification::Tampered);
    assert_eq!(messages, vec!["candidate Git authority is tampered".to_string()]);
}

#[test]
fn missing_candidate_is_verified_only_once_cleaned() {
    let mut messages = Vec::new();
    let cleaned = inspect_candidate(&Some(record("Cleaned")), &CandidateObservation::Missing, &mut messages)
        .unwrap()
        .unwrap();
    assert_eq!(cleaned.verification, EvidenceClassification::Verified);
    assert!(messages.is_empty());
    let lost = inspect_candidate(&Some(record("Ready")), &CandidateObservation::Missing, &mut messages)
        .unwrap()
        .unwrap();
    assert_eq!(lost.verification, EvidenceClassification::Missing);
    assert_eq!(messages, vec!["candidate Git authority is missing".to_string()]);
    assert_eq!(inspect_candidate(&None, &CandidateObservation::Missing, &mut messages), Ok(None));
}

#[test]
fn candidate_refusals_follow_the_observation_order() {
    let mut messages = Vec::new();
    let not_root = CandidateObservation::Present {
        real_directory: true,
        toplevel_matches: Ok(false),
        head: Err(InspectError::Safety("candidate Git authority could not be inspected".into())),
        staged_diff: Ok(Vec::new()),
        worktree_matches_index: Ok(true),
        untracked: Ok(Vec::new()),
    };
    assert_eq!(
        inspect_candidate(&Some(record("Ready")), &not_root, &mut messages),
        Err(InspectError::Safety("candidate path is not the exact Git worktree root".into()))
    );
    let unverifiable = CandidateObservation::Present {
        real_directory: true,
        toplevel_matches: Ok(true),
        head: Ok("c".repeat(40)),
        staged_diff: Ok(Vec::new()),
        worktree_matches_index: Err("index is locked".into()),
        untracked: Ok(Vec::new()),
    };
    assert_eq!(
        inspect_candidate(&Some(record("Ready")), &unverifiable, &mut messages),
        Err(InspectError::Safety(
            "candidate physical worktree could not be verified safely: index is locked".into()
        ))
    );
    let link = CandidateObservation::Present {
        real_directory: false,
        toplevel_matches: Ok(true),
        head: Ok(String::new()),
        staged_diff: Ok(Vec::new()),
        worktree_matches_index: Ok(true),
        untracked: Ok(Vec::new()),
    };
    assert_eq!(
        inspect_candidate(&Some(record("Ready")), &link, &mut messages),
        Err(InspectError::Safety("candidate path authority is not a real directory".into()))
    );
    assert!(messages.is_empty());
}

#[test]
fn final_authority_is_required_only_after_approved_evaluation() {
    let mut messages = Vec::new();
    assert_eq!(
        final_evaluation_authority(false, &Err("unused".into()), &mut messages),
        FinalEvaluationAuthority::NotRequired
    );
    assert_eq!(
        final_evaluation_authority(true, &Ok(2), &mut messages),
        FinalEvaluationAuthority::Verified { attempt: 2 }
    );
    assert!(messages.is_empty());
    assert_eq!(
        final_evaluation_authority(true, &Err("missing intent".into()), &mut messages),
        FinalEvaluationAuthority::Invalid
    );
    assert_eq!(messages, vec!["final evaluation authority is invalid".to_string()]);
}

#[test]
fn provider_errors_are_classified_by_their_messages() {
    let artifact = |message: &str| ProviderErrorSummary {
        artifact_message: Some(message.to_string()),
        io_not_found: false,
        display: format!("provider artifact: {message}"),
    };
    assert_eq!(
        classify_provider_error(&artifact("record could not be inspected")),
        Ok(EvidenceClassification::Missing)
    );
    assert_eq!(
        classify_provider_error(&artifact("record is a symlink")),
        Err(InspectError::Safety("provider artifact: record is a symlink".to_string()))
    );
    assert_eq!(classify_provider_error(&artifact("digest mismatch")), Ok(EvidenceClassification::Tampered));
    let missing = ProviderErrorSummary { artifact_message: None, io_not_found: true, display: "not found".into() };
    assert_eq!(classify_provider_error(&missing), Ok(EvidenceClassification::Missing));
}
