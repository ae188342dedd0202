use seaf_loop::evaluation_attempt::{
    fixed_spelling, is_digest, parse_name, selected_attempt, ArtifactEntry, CheckLogPaths,
    EvaluationAttemptInventory, EvaluationAttemptPaths, Kind, Spelling,
};

fn entry(name: &str) -> ArtifactEntry {
    ArtifactEntry {
        name: name.to_string(),
        utf8: true,
        regular_file: true,
    }
}

fn entries(names: &[&str]) -> Vec<ArtifactEntry> {
    names.iter().map(|name| entry(name)).collect()
}

fn parse(name: &str) -> Option<(u32, Spelling, Kind)> {
    parse_name(&name.chars().collect())
}

#[test]
fn inventory_rejects_malformed_orphan_gapped_unpaired_and_future_attempts_inertly() {
    let cases: &[(&str, &[&str])] = &[
        ("malformed", &["07-testing.attempt-1.json"]),
        ("without-intent", &["07-testing.attempt-001.json"]),
        (
            "unpaired",
            &[
                "07-testing.attempt-001.execution-intent.json",
                "07-testing.attempt-001.check-001.stdout.log",
            ],
        ),
        (
            "gapped-check",
            &[
                "07-testing.attempt-001.execution-intent.json",
                "07-testing.attempt-001.check-002.stdout.log",
                "07-testing.attempt-001.check-002.stderr.log",
            ],
        ),
        (
            "future-attempt",
            &["07-testing.attempt-002.execution-intent.json"],
        ),
        (
            "contiguous-future-attempt",
            &[
                "07-testing.attempt-001.execution-intent.json",
                "07-testing.attempt-002.execution-intent.json",
            ],
        ),
    ];
    for (name, files) in cases {
        let listing = entries(files);
        let before = listing.clone();
        assert!(EvaluationAttemptInventory::load(&listing).is_err(), "{name}");
        assert_eq!(listing, before, "{name}");
    }
}

#[test]
fn invalidation_inventory_accepts_only_the_factual_trailing_stdout_crash_cut() {
    let listing = entries(&[
        "07-testing.attempt-001.execution-intent.json",
        "07-testing.attempt-001.check-001.stdout.log",
    ]);
    assert!(EvaluationAttemptInventory::load(&listing).is_err());
    let inventory = EvaluationAttemptInventory::load_for_invalidation(&listing)
        .expect("stdout is published before stderr and is a factual crash cut");
    let prefix = inventory.invalidation_prefix_paths().unwrap();
    assert_eq!(prefix.attempt, 1);
    assert!(prefix.trailing_stdout);
    assert_eq!(prefix.complete_log_pairs, 0);

    let listing = entries(&[
        "07-testing.attempt-001.execution-intent.json",
        "07-testing.attempt-001.check-001.stderr.log",
    ]);
    assert!(EvaluationAttemptInventory::load_for_invalidation(&listing).is_err());
}

fn one_check() -> Vec<CheckLogPaths> {
    vec![CheckLogPaths {
        stdout_path: Some("artifacts/07-testing.attempt-001.check-001.stdout.log".into()),
        stderr_path: Some("artifacts/07-testing.attempt-001.check-001.stderr.log".into()),
    }]
}

#[test]
fn inventory_rejects_surplus_and_cross_attempt_testing_logs() {
    let listing = entries(&[
        "07-testing.attempt-001.execution-intent.json",
        "07-testing.attempt-001.check-001.stdout.log",
        "07-testing.attempt-001.check-001.stderr.log",
        "07-testing.attempt-001.check-002.stdout.log",
        "07-testing.attempt-001.check-002.stderr.log",
        "07-testing.attempt-001.json",
        "08-eval-report.attempt-001.json",
    ]);
    let inventory = EvaluationAttemptInventory::load(&listing).unwrap();
    assert!(inventory.validate_selected_logs(1, &one_check()).is_err());
}

#[test]
fn recovery_prefix_allows_create_missing_before_and_after_exact_report_publication() {
    let mut listing = entries(&[
        "07-testing.attempt-001.execution-intent.json",
        "07-testing.attempt-001.check-001.stdout.log",
        "07-testing.attempt-001.check-001.stderr.log",
        "07-testing.attempt-001.json",
    ]);
    let checks = one_check();
    let inventory = EvaluationAttemptInventory::load(&listing).unwrap();
    assert!(!inventory
        .require_recovery_prefix(
            1,
            "artifacts/07-testing.attempt-001.execution-intent.json",
            "artifacts/07-testing.attempt-001.json",
            "artifacts/08-eval-report.attempt-001.json",
            true,
            &checks,
        )
        .unwrap());
    assert!(inventory
        .require_recovery_prefix(
            1,
            "artifacts/07-testing.attempt-001.execution-intent.json",
            "artifacts/07-testing.attempt-001.json",
            "artifacts/08-eval-report.attempt-001.json",
            false,
            &checks,
        )
        .is_err());

    listing.push(entry("08-eval-report.attempt-001.json"));
    let inventory = EvaluationAttemptInventory::load(&listing).unwrap();
    assert!(inventory
        .require_recovery_prefix(
            1,
            "artifacts/07-testing.attempt-001.execution-intent.json",
            "artifacts/07-testing.attempt-001.json",
            "artifacts/08-eval-report.attempt-001.json",
            true,
            &checks,
        )
        .unwrap());
}

#[test]
fn names_parse_into_attempt_spelling_and_slot() {
    assert_eq!(parse("07-testing.json"), Some((1, Spelling::Fixed, Kind::Testing)));
    assert_eq!(
        parse("07-testing.execution-intent.json"),
        Some((1, Spelling::Fixed, Kind::Intent))
    );
    assert_eq!(parse("08-eval-report.json"), Some((1, Spelling::Fixed, Kind::Report)));
    assert_eq!(
        parse("07-testing.check-012.stderr.log"),
        Some((1, Spelling::Fixed, Kind::Stderr(12)))
    );
    assert_eq!(
        parse("07-testing.attempt-1234.check-005.stdout.log"),
        Some((1234, Spelling::Indexed, Kind::Stdout(5)))
    );
    assert_eq!(
        parse("08-eval-report.attempt-007.json"),
        Some((7, Spelling::Indexed, Kind::Report))
    );
    for bad in [
        "07-testing.attempt-000.json",
        "07-testing.attempt-07.json",
        "07-testing.attempt-0007.json",
        "07-testing.attempt-001.check-001.stdout.txt",
        "07-testing.attempt-001.yaml",
        "08-eval-report.attempt-001.yaml",
        "07-testing.attempt-4294967296.json",
        "07-testing.check-1.stdout.log",
    ] {
        assert_eq!(parse(bad), None, "{bad}");
    }
}

#[test]
fn indexed_paths_and_their_logs() {
    assert_eq!(
        EvaluationAttemptPaths::indexed(0).unwrap_err(),
        "evaluation attempt must be positive"
    );
    let paths = EvaluationAttemptPaths::indexed(3).unwrap();
    assert_eq!(paths.intent, "artifacts/07-testing.attempt-003.execution-intent.json");
    assert_eq!(paths.testing, "artifacts/07-testing.attempt-003.json");
    assert_eq!(paths.report, "artifacts/08-eval-report.attempt-003.json");
    assert_eq!(
        paths.stdout(2),
        "artifacts/07-testing.attempt-003.check-002.stdout.log"
    );
    assert_eq!(
        paths.stderr(1000),
        "artifacts/07-testing.attempt-003.check-1000.stderr.log"
    );
    assert_eq!(
        selected_attempt(&paths.testing, &paths.report).unwrap(),
        (3, Spelling::Indexed)
    );
}

#[test]
fn selected_attempt_requires_one_attempt_and_spelling() {
    assert_eq!(
        selected_attempt("artifacts/07-testing.json", "artifacts/08-eval-report.json").unwrap(),
        (1, Spelling::Fixed)
    );
    assert_eq!(
        selected_attempt(
            "artifacts/07-testing.json",
            "artifacts/08-eval-report.attempt-001.json"
        )
        .unwrap_err(),
        "Testing and EvalReport select different evaluation attempts"
    );
    assert_eq!(
        selected_attempt("07-testing.json", "artifacts/08-eval-report.json").unwrap_err(),
        "Testing artifact path is not canonical"
    );
    assert_eq!(
        selected_attempt("artifacts/07-testing.json", "artifacts/report.json").unwrap_err(),
        "EvalReport artifact path is not canonical"
    );
    assert!(fixed_spelling(Spelling::Fixed));
    assert!(!fixed_spelling(Spelling::Indexed));
}

#[test]
fn listing_errors_name_the_entry() {
    let mut odd = entry("07-testing.attempt-001.execution-intent.json");
    odd.regular_file = false;
    assert_eq!(
        EvaluationAttemptInventory::load(&vec![odd]).err().unwrap(),
        "evaluation artifact is not a real regular file: 07-testing.attempt-001.execution-intent.json"
    );
    let mut lossy = entry("07-testing\u{fffd}.json");
    lossy.utf8 = false;
    assert_eq!(
        EvaluationAttemptInventory::load(&vec![lossy]).err().unwrap(),
        "evaluation artifact filename is not valid UTF-8"
    );
    assert_eq!(
        EvaluationAttemptInventory::load(&entries(&[
            "07-testing.execution-intent.json",
            "07-testing.attempt-001.json"
        ]))
        .err()
        .unwrap(),
        "mixed fixed and indexed evaluation attempt 1 authority"
    );
    assert_eq!(
        EvaluationAttemptInventory::load(&entries(&["07-testing.attempt-002.json"]))
            .err()
            .unwrap(),
        "evaluation attempt is unauthorized before M1-09c3 recovery"
    );
    let unrelated = EvaluationAttemptInventory::load(&entries(&["01-research.json"])).unwrap();
    assert!(unrelated.is_empty());
}

#[test]
fn loaded_inventory_answers_queries_about_the_latest_attempt() {
    let listing = entries(&[
        "07-testing.attempt-001.execution-intent.json",
        "07-testing.attempt-001.check-001.stdout.log",
        "07-testing.attempt-001.check-001.stderr.log",
        "07-testing.attempt-001.json",
        "08-eval-report.attempt-001.json",
        "07-testing.attempt-002.execution-intent.json",
        "07-testing.attempt-002.check-001.stdout.log",
    ]);
    let inventory = EvaluationAttemptInventory::load_for_invalidation(&listing).unwrap();
    assert!(!inventory.is_empty());
    assert_eq!(
        inventory.intent_path(2),
        Some("artifacts/07-testing.attempt-002.execution-intent.json")
    );
    assert_eq!(inventory.intent_path(3), None);
    assert!(inventory
        .require_selected(
            1,
            "artifacts/07-testing.attempt-001.json",
            "artifacts/08-eval-report.attempt-001.json"
        )
        .is_err());
    let prefix = inventory.invalidation_prefix_paths().unwrap();
    assert_eq!(prefix.attempt, 2);
    assert_eq!(
        prefix.paths,
        vec![
            "artifacts/07-testing.attempt-002.execution-intent.json".to_string(),
            "artifacts/07-testing.attempt-002.check-001.stdout.log".to_string(),
        ]
    );
    let first = inventory.invalidation_prefix_paths_for(1).unwrap();
    assert_eq!(first.complete_log_pairs, 1);
    assert!(first.testing_present && first.report_present && !first.trailing_stdout);
    assert_eq!(first.paths.len(), 5);
    assert_eq!(
        inventory.recovery_prefix_paths().unwrap_err(),
        "adoption evaluation prefix lost Testing evidence"
    );

    let single = EvaluationAttemptInventory::load(&entries(&[
        "07-testing.execution-intent.json",
        "07-testing.json",
    ]))
    .unwrap();
    let adopted = single.recovery_prefix_paths().unwrap();
    assert_eq!(adopted.report, "artifacts/08-eval-report.json");
    assert!(!adopted.report_present);
    assert_eq!(adopted.spelling, Spelling::Fixed);
    assert!(single
        .require_selected(1, "artifacts/07-testing.json", "artifacts/08-eval-report.json")
        .is_err());
}

#[test]
fn digests_are_sixty_four_lowercase_hex_digits() {
    assert!(is_digest(&"a".repeat(64)));
    assert!(is_digest(&"0123456789abcdef".repeat(4)));
    assert!(!is_digest(&"A".repeat(64)));
    assert!(!is_digest(&"a".repeat(63)));
    assert!(!is_digest(&"g".repeat(64)));
}
