use seaf_loop::inspect::{
    InspectError,
    digest_bytes, list_regular_artifacts, ArtifactFilter, EvidenceClassification,
    InventoryEntry, MAX_ARTIFACT_HISTORY_PER_STEP,
};
use seaf_loop::inspect_steps::{inspect_prompt_attempts, inspect_step_history, FinalEvaluationAuthority};

fn entry(name: &str) -> InventoryEntry {
    InventoryEntry {
        name: name.to_string(),
        display_path: format!("runs/run/artifacts/{name}"),
        utf8: true,
        regular_file: true,
    }
}

fn research_listing(names: &[&str], selected: Option<&str>) -> (Vec<String>, usize) {
    let entries: Vec<InventoryEntry> = names.iter().map(|name| entry(name)).collect();
    let priority: Vec<String> = selected.into_iter().map(|path| path.to_string()).collect();
    list_regular_artifacts(
        &entries,
        MAX_ARTIFACT_HISTORY_PER_STEP,
        &priority,
        &ArtifactFilter::RoleArtifact("01-research".to_string()),
    )
    .expect("listing")
}

#[test]
fn later_durable_attempt_with_fixed_role_artifact_is_ambiguous_forensic_evidence() {
    let bytes = b"historical role artifact".to_vec();
    let selected = "artifacts/01-research.json";
    let (artifacts, _) = research_listing(&["01-research.json"], Some(selected));
    let mut messages = Vec::new();
    let mut ambiguities = Vec::new();

    let (history, _) = inspect_step_history(
        "Research",
        "01-research",
        &Some(selected.to_string()),
        &Some(digest_bytes(&bytes)),
        false,
        FinalEvaluationAuthority::NotRequired,
        None,
        Some(2),
        &artifacts,
        &Some(bytes),
        &mut ambiguities,
        &mut messages,
    );

    assert_eq!(history[0].classification, EvidenceClassification::Ambiguous);
    assert_eq!(ambiguities.len(), 1);
    assert!(messages.is_empty());
    assert_eq!(
        ambiguities[0],
        "Research durable attempt 2 still selects the historical fixed-name artifact"
    );
}

#[test]
fn selected_indexed_artifact_is_not_current_when_durable_authority_stops_earlier() {
    let selected_bytes = b"untrusted attempt three".to_vec();
    let selected = "artifacts/01-research.attempt-003.json";
    let (artifacts, _) = research_listing(
        &["01-research.json", "01-research.attempt-003.json"],
        Some(selected),
    );
    let mut messages = Vec::new();
    let mut ambiguities = Vec::new();

    let (history, _) = inspect_step_history(
        "Research",
        "01-research",
        &Some(selected.to_string()),
        &Some(digest_bytes(&selected_bytes)),
        false,
        FinalEvaluationAuthority::NotRequired,
        None,
        Some(2),
        &artifacts,
        &Some(selected_bytes),
        &mut ambiguities,
        &mut messages,
    );

    assert_eq!(
        history.iter().find(|entry| entry.attempt == 3).unwrap().classification,
        EvidenceClassification::Ambiguous
    );
    assert_eq!(
        history.iter().find(|entry| entry.attempt == 1).unwrap().classification,
        EvidenceClassification::Historical,
        "once an indexed artifact is selected, persisted authority cannot prove the fixed file was reused"
    );
    assert!(!ambiguities.is_empty());
}

#[test]
fn artifact_history_cap_retains_selected_current_path_after_lexical_prefix() {
    let mut names = Vec::new();
    for attempt in 1..=40 {
        if attempt == 1 {
            names.push("01-research.json".to_string());
        } else {
            names.push(format!("01-research.attempt-{attempt:03}.json"));
        }
    }
    let name_refs: Vec<&str> = names.iter().map(|name| name.as_str()).collect();
    let selected = "artifacts/01-research.attempt-040.json";
    let (artifacts, listed_total) = research_listing(&name_refs, Some(selected));

    let (history, extra) = inspect_step_history(
        "Research",
        "01-research",
        &Some(selected.to_string()),
        &Some(digest_bytes(b"attempt 40")),
        false,
        FinalEvaluationAuthority::NotRequired,
        None,
        Some(40),
        &artifacts,
        &Some(b"attempt 40".to_vec()),
        &mut Vec::new(),
        &mut Vec::new(),
    );

    assert_eq!(listed_total + extra, 40);
    assert_eq!(history.len(), MAX_ARTIFACT_HISTORY_PER_STEP);
    assert_eq!(
        history.iter().find(|entry| entry.path == selected).unwrap().classification,
        EvidenceClassification::Current
    );
}

#[test]
fn history_is_ordered_by_attempt_then_path() {
    let (artifacts, _) = research_listing(
        &["01-research.attempt-002.md", "01-research.json", "01-research.attempt-002.json"],
        None,
    );
    let (history, extra) = inspect_step_history(
        "Research",
        "01-research",
        &None,
        &None,
        false,
        FinalEvaluationAuthority::NotRequired,
        None,
        None,
        &artifacts,
        &None,
        &mut Vec::new(),
        &mut Vec::new(),
    );
    let order: Vec<(u32, &str)> = history.iter().map(|entry| (entry.attempt, entry.path.as_str())).collect();
    assert_eq!(
        order,
        vec![
            (1, "artifacts/01-research.json"),
            (2, "artifacts/01-research.attempt-002.json"),
            (2, "artifacts/01-research.attempt-002.md"),
        ]
    );
    assert!(history.iter().all(|entry| entry.classification == EvidenceClassification::Historical));
    assert_eq!(extra, 0);
}

#[test]
fn missing_selected_artifact_is_reported_and_counted() {
    let mut messages = Vec::new();
    let mut ambiguities = Vec::new();
    let (history, extra) = inspect_step_history(
        "Research",
        "01-research",
        &Some("artifacts/01-research.json".to_string()),
        &Some("a".repeat(64)),
        false,
        FinalEvaluationAuthority::NotRequired,
        None,
        None,
        &Vec::new(),
        &None,
        &mut ambiguities,
        &mut messages,
    );
    assert_eq!(history.len(), 1);
    assert_eq!(history[0].classification, EvidenceClassification::Missing);
    assert_eq!(history[0].extension, "json");
    assert_eq!(extra, 1);
    assert!(ambiguities.is_empty());
    assert_eq!(
        messages,
        vec!["current Research role artifact is missing, unrecognized, or inconsistent".to_string()]
    );
}

#[test]
fn unrecognized_selected_artifact_takes_the_durable_attempt_and_path_extension() {
    let mut messages = Vec::new();
    let (history, extra) = inspect_step_history(
        "Research",
        "01-research",
        &Some("artifacts/notes.txt".to_string()),
        &Some("a".repeat(64)),
        false,
        FinalEvaluationAuthority::NotRequired,
        Some(3),
        None,
        &Vec::new(),
        &Some(b"notes".to_vec()),
        &mut Vec::new(),
        &mut messages,
    );
    assert_eq!(history[0].attempt, 3);
    assert_eq!(history[0].extension, "txt");
    assert_eq!(history[0].classification, EvidenceClassification::Tampered);
    assert_eq!(extra, 1);
    assert_eq!(messages.len(), 1);
}

#[test]
fn invalid_final_authority_makes_a_verified_evaluation_artifact_ambiguous() {
    let bytes = b"testing evidence".to_vec();
    let selected = "artifacts/07-testing.json";
    let entries = vec![entry("07-testing.json")];
    let (artifacts, _) = list_regular_artifacts(
        &entries,
        MAX_ARTIFACT_HISTORY_PER_STEP,
        &vec![selected.to_string()],
        &ArtifactFilter::RoleArtifact("07-testing".to_string()),
    )
    .unwrap();
    let mut ambiguities = Vec::new();
    let mut messages = Vec::new();
    let (history, _) = inspect_step_history(
        "Testing",
        "07-testing",
        &Some(selected.to_string()),
        &Some(digest_bytes(&bytes)),
        true,
        FinalEvaluationAuthority::Invalid,
        None,
        None,
        &artifacts,
        &Some(bytes),
        &mut ambiguities,
        &mut messages,
    );
    assert_eq!(history[0].classification, EvidenceClassification::Ambiguous);
    assert_eq!(
        ambiguities,
        vec!["Testing selected artifact cannot be current because final evaluation authority is invalid".to_string()]
    );
    assert!(messages.is_empty());
}

#[test]
fn tampered_selected_artifact_is_reported() {
    let selected = "artifacts/01-research.json";
    let (artifacts, _) = research_listing(&["01-research.json"], Some(selected));
    let mut messages = Vec::new();
    let (history, _) = inspect_step_history(
        "Research",
        "01-research",
        &Some(selected.to_string()),
        &Some(digest_bytes(b"expected")),
        false,
        FinalEvaluationAuthority::Verified { attempt: 1 },
        None,
        None,
        &artifacts,
        &Some(b"other".to_vec()),
        &mut Vec::new(),
        &mut messages,
    );
    assert_eq!(history[0].classification, EvidenceClassification::Tampered);
    assert_eq!(messages, vec!["current Research role artifact is tampered".to_string()]);
}

fn prompt_steps() -> (Vec<String>, Vec<String>) {
    (
        vec!["Research".to_string(), "Plan".to_string()],
        vec!["01-research".to_string(), "02-plan".to_string()],
    )
}

#[test]
fn prompt_attempts_report_each_steps_highest_attempt() {
    let (names, stems) = prompt_steps();
    let entries = vec![
        entry("01-research.attempt-002.prompt.md"),
        entry("01-research.prompt.md"),
        entry("02-plan.prompt.md"),
        entry("notes.md"),
    ];
    assert_eq!(
        inspect_prompt_attempts(&entries, &names, &stems),
        Ok(vec![Some(2), Some(1)])
    );
    assert_eq!(inspect_prompt_attempts(&Vec::new(), &names, &stems), Ok(vec![None, None]));
}

#[test]
fn prompt_attempts_refuse_a_skipped_attempt() {
    let (names, stems) = prompt_steps();
    let entries = vec![entry("01-research.prompt.md"), entry("01-research.attempt-003.prompt.md")];
    assert_eq!(
        inspect_prompt_attempts(&entries, &names, &stems),
        Err(InspectError::Safety(
            "prompt attempt sequence for Research contains a skipped attempt".to_string()
        ))
    );
}

#[test]
fn prompt_attempts_refuse_malformed_and_unsafe_entries() {
    let (names, stems) = prompt_steps();
    assert_eq!(
        inspect_prompt_attempts(&vec![entry("02-plan.attempt-02.prompt.md")], &names, &stems),
        Err(InspectError::Safety(
            "prompt attempt name is malformed, non-canonical, or exhausted: 02-plan.attempt-02.prompt.md"
                .to_string()
        ))
    );
    let mut link = entry("01-research.prompt.md");
    link.regular_file = false;
    assert_eq!(
        inspect_prompt_attempts(&vec![link], &names, &stems),
        Err(InspectError::Safety(
            "prompt inventory contains unsafe entry: runs/run/artifacts/01-research.prompt.md".to_string()
        ))
    );
}
