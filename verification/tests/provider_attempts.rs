use seaf_loop::inspect::{EvidenceClassification, InspectError, MAX_PROVIDER_ATTEMPTS};
use seaf_loop::provider_attempts::{
    inspect_provider_attempts, ChainCheck, ProviderRecordReference, RecordLoad,
};

fn step_names() -> Vec<String> {
    (0..8).map(|index| format!("Step{index}")).collect()
}

fn reference(step: usize, attempt: u32, exchange: u32) -> ProviderRecordReference {
    ProviderRecordReference {
        run_id: "ledger-cap".to_string(),
        step,
        role: "Researcher".to_string(),
        step_attempt: attempt,
        exchange_index: exchange,
        kind: "Initial".to_string(),
        context_round: None,
        phase: "Request".to_string(),
        path: format!(
            "artifacts/01-research.attempt-{attempt:03}.exchange-{exchange:03}.researcher.initial.request.record.json"
        ),
        digest: "0".repeat(64),
    }
}

#[test]
fn provider_attempt_output_is_bounded_while_totals_remain_factual() {
    let references: Vec<ProviderRecordReference> = (1..=100).map(|attempt| reference(0, attempt, 1)).collect();
    let loads = vec![RecordLoad::Missing; references.len()];
    let mut messages = Vec::new();

    let inventory =
        inspect_provider_attempts(&references, &loads, &ChainCheck::Missing, &step_names(), &mut messages)
            .unwrap();

    assert_eq!(inventory.attempts.len(), MAX_PROVIDER_ATTEMPTS);
    assert_eq!(inventory.attempts_total, 100);
    assert_eq!(inventory.exchanges_total, 100);
    assert_eq!(inventory.attempts.first().unwrap().attempt, 1);
    assert_eq!(inventory.attempts.last().unwrap().attempt, 100);
    assert!(inventory.attempts.last().unwrap().exchanges.last().unwrap().ledger_head);
    assert_eq!(inventory.maxima[0], Some(100));
}

#[test]
fn provider_attempt_gaps_and_damaged_records_are_reported() {
    let references = vec![reference(0, 1, 1), reference(0, 3, 1), reference(0, 3, 2)];
    let loads = vec![
        RecordLoad::Loaded(Some("Accepted".to_string())),
        RecordLoad::Tampered,
        RecordLoad::Loaded(None),
    ];
    let mut messages = Vec::new();
    let inventory =
        inspect_provider_attempts(&references, &loads, &ChainCheck::Sound, &step_names(), &mut messages)
            .unwrap();
    assert_eq!(inventory.attempts_total, 2);
    assert_eq!(inventory.exchanges_total, 3);
    assert_eq!(inventory.attempts[0].exchanges[0].verification, EvidenceClassification::Verified);
    assert_eq!(inventory.attempts[0].exchanges[0].outcome, Some("Accepted".to_string()));
    assert_eq!(inventory.attempts[1].exchanges[0].verification, EvidenceClassification::Tampered);
    assert!(!inventory.attempts[1].exchanges[0].ledger_head);
    assert!(inventory.attempts[1].exchanges[1].ledger_head);
    assert_eq!(inventory.maxima, vec![Some(3), None, None, None, None, None, None, None]);
    assert_eq!(
        messages,
        vec![
            "provider attempt sequence for Step0 has a factual gap before 3".to_string(),
            format!("provider ledger record {} is tampered", references[1].path),
        ]
    );
}

#[test]
fn provider_refusals_end_the_inspection() {
    let references = vec![reference(0, 1, 1)];
    let mut messages = Vec::new();
    assert_eq!(
        inspect_provider_attempts(
            &references,
            &vec![RecordLoad::Missing],
            &ChainCheck::Refused("unsafe provider record".to_string()),
            &step_names(),
            &mut messages,
        ),
        Err(InspectError::Safety("unsafe provider record".to_string()))
    );
    assert!(messages.is_empty());
    assert_eq!(
        inspect_provider_attempts(
            &references,
            &vec![RecordLoad::Refused("record is a symlink".to_string())],
            &ChainCheck::Tampered,
            &step_names(),
            &mut messages,
        ),
        Err(InspectError::Safety("record is a symlink".to_string()))
    );
    assert_eq!(messages, vec!["authoritative provider record chain is tampered or incomplete".to_string()]);
}

#[test]
fn exchanges_past_the_cap_replace_the_last_one() {
    let references: Vec<ProviderRecordReference> = (1..=40).map(|exchange| reference(0, 1, exchange)).collect();
    let loads = vec![RecordLoad::Loaded(None); references.len()];
    let inventory =
        inspect_provider_attempts(&references, &loads, &ChainCheck::Sound, &step_names(), &mut Vec::new())
            .unwrap();
    let exchanges = &inventory.attempts[0].exchanges;
    assert_eq!(exchanges.len(), 32);
    assert_eq!(exchanges[30].exchange_index, 31);
    assert_eq!(exchanges[31].exchange_index, 40);
    assert_eq!(inventory.exchanges_total, 40);
}
