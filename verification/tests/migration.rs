use sha2::Digest;

use seaf_loop::digest_rewrite::{rewrite_digests, JsonValue};
use seaf_loop::migration::{
    current_outcome, digest_run_tree_inventory, is_known_typed_digest_field, migrated_outcome,
    migration_names, policy_decision_name_matches, recovery_plan, resolve_digest_alias, safe_artifact_stem,
    validate_run_id, MigrationError, MigrationStatus, Presence, RecoveryPlan, RunTreeEntry,
};

fn presence(source: bool, staged: bool, backup: bool, intent: bool) -> Presence {
    Presence {
        source,
        staged,
        backup,
        intent,
    }
}

#[test]
fn every_publication_cut_has_a_recovery_plan() {
    let cuts = [
        (presence(true, false, false, true), RecoveryPlan::DiscardIntent),
        (presence(true, true, false, true), RecoveryPlan::ResumeStaged),
        (presence(false, true, true, true), RecoveryPlan::PublishStaged),
        (presence(true, false, true, true), RecoveryPlan::FinishPublished),
        (presence(true, false, true, false), RecoveryPlan::AlreadyMigrated),
        (presence(true, false, false, false), RecoveryPlan::Fresh),
    ];
    for (found, plan) in cuts {
        assert_eq!(recovery_plan("run-1", found).unwrap(), plan);
        assert!(found.source || found.backup);
    }
}

#[test]
fn states_no_cut_leaves_are_ambiguous() {
    let error = recovery_plan("run-1", presence(false, false, true, false)).unwrap_err();
    assert_eq!(
        error.to_string(),
        "ambiguous migration recovery state for run run-1: source=false, staged=false, backup=true, intent=false"
    );
    assert!(recovery_plan("r", presence(false, false, false, false)).is_err());
    assert!(recovery_plan("r", presence(true, true, true, true)).is_err());
}

#[test]
fn transaction_entries_are_named_beside_the_run() {
    let names = migration_names("run-7");
    assert_eq!(names.source, "run-7");
    assert_eq!(names.staged, ".run-7.migration-v0-v1.staged");
    assert_eq!(names.backup, ".run-7.migration-v0-v1.backup");
    assert_eq!(names.intent, ".run-7.migration-v0-v1.intent.json");
    assert!(validate_run_id("run-7").is_ok());
    assert_eq!(
        validate_run_id("..").unwrap_err(),
        MigrationError {
            message: "invalid run ID; use only ASCII letters, numbers, '-' or '_'".to_string()
        }
    );
}

#[test]
fn policy_decision_names_follow_the_patch_stem() {
    assert!(policy_decision_name_matches("p1.policy-decision.json", "p1"));
    assert!(policy_decision_name_matches("p1.attempt-002.policy-decision.json", "p1"));
    assert!(!policy_decision_name_matches("p1.attempt-001.policy-decision.json", "p1"));
    assert!(!policy_decision_name_matches("p1.attempt-02.policy-decision.json", "p1"));
    assert!(!policy_decision_name_matches("p2.policy-decision.json", "p1"));
    assert_eq!(safe_artifact_stem("feat/x y.z"), "featxy.z");
    assert_eq!(safe_artifact_stem("///"), "patch");
    assert!(is_known_typed_digest_field("stdout_digest"));
    assert!(!is_known_typed_digest_field("digest"));
}

#[test]
fn tree_digest_frames_every_record() {
    let inventory = vec![
        (b"a".to_vec(), RunTreeEntry::Directory),
        (
            b"a/f".to_vec(),
            RunTreeEntry::File {
                len: 3,
                digest: vec![7; 32],
            },
        ),
        (b"a/l".to_vec(), RunTreeEntry::Symlink(b"f".to_vec())),
    ];
    let mut expected = sha2::Sha256::new();
    let mut record = |kind: &[u8], path: &[u8], payload: &[u8]| {
        for field in [kind, path, payload] {
            expected.update((field.len() as u64).to_be_bytes());
            expected.update(field);
        }
    };
    record(b"directory", b"a", &[]);
    let mut payload = 3u64.to_be_bytes().to_vec();
    payload.extend_from_slice(&[7; 32]);
    record(b"file", b"a/f", &payload);
    record(b"symlink", b"a/l", b"f");
    assert_eq!(
        digest_run_tree_inventory(&inventory),
        hex::encode(expected.finalize())
    );
    assert_eq!(
        digest_run_tree_inventory(&Vec::new()),
        "e3b0c44298fc1c149afbf4c8996fb92427ae41e4649b934ca495991b7852b855"
    );
}

#[test]
fn outcomes_report_the_transaction() {
    let done = migrated_outcome(
        "r",
        "/runs/r",
        "/runs/.r.migration-v0-v1.backup",
        MigrationStatus::Recovered,
        vec!["run.json".to_string()],
    );
    assert_eq!(done.command, "migrate");
    assert_eq!(done.from_schema_version, 0);
    assert_eq!(done.to_schema_version, 1);
    assert_eq!(
        done.result_path.as_deref(),
        Some("/runs/r/migration-v0-v1.result.json")
    );
    let current = current_outcome("r", "/runs/r/", "/b", false, true);
    assert_eq!(current.status, MigrationStatus::AlreadyCurrent);
    assert_eq!(current.backup_directory, None);
    assert_eq!(
        current.result_path.as_deref(),
        Some("/runs/r/migration-v0-v1.result.json")
    );
    assert!(current.migrated_artifacts.is_empty());
}

fn aliases(pairs: &[(&str, &str)]) -> Vec<(String, String)> {
    pairs.iter().map(|(from, to)| (from.to_string(), to.to_string())).collect()
}

#[test]
fn digest_aliases_are_followed_to_their_end() {
    let chain = aliases(&[("a", "b"), ("b", "c")]);
    assert_eq!(resolve_digest_alias(&"a".to_string(), &chain), "c");
    assert_eq!(resolve_digest_alias(&"b".to_string(), &chain), "c");
    assert_eq!(resolve_digest_alias(&"z".to_string(), &chain), "z");
}

#[test]
fn digest_alias_cycles_stop_where_they_return() {
    let cycle = aliases(&[("a", "b"), ("b", "a")]);
    assert_eq!(resolve_digest_alias(&"a".to_string(), &cycle), "a");
    assert_eq!(resolve_digest_alias(&"b".to_string(), &cycle), "b");
    let self_alias = aliases(&[("a", "a")]);
    assert_eq!(resolve_digest_alias(&"a".to_string(), &self_alias), "a");
    let replaced = aliases(&[("a", "b"), ("a", "c")]);
    assert_eq!(resolve_digest_alias(&"a".to_string(), &replaced), "c");
}

fn text(value: &str) -> JsonValue {
    JsonValue::Text(value.to_string())
}

fn object(members: Vec<(&str, JsonValue)>) -> JsonValue {
    let mut members: Vec<(String, JsonValue)> =
        members.into_iter().map(|(key, value)| (key.to_string(), value)).collect();
    members.sort_by(|left, right| left.0.cmp(&right.0));
    JsonValue::Object(members)
}

#[test]
fn digest_fields_are_rewritten_at_every_depth() {
    let aliases = aliases(&[("d1", "d9"), ("d2", "d8")]);
    let value = object(vec![
        ("path", text("artifacts/a.json")),
        ("digest", text("d1")),
        ("stdout_path", text("artifacts/out.log")),
        ("stdout_digest", text("d2")),
        ("ticket_digest", text("d1")),
        ("other_digest", text("d1")),
        ("note", text("d1")),
        ("input_digests", object(vec![("ticket", text("d1")), ("count", JsonValue::Number("5".into()))])),
        ("nested", JsonValue::Array(vec![object(vec![("artifact_digest", text("d2"))]), JsonValue::Null])),
    ]);
    let expected = object(vec![
        ("path", text("artifacts/a.json")),
        ("digest", text("d9")),
        ("stdout_path", text("artifacts/out.log")),
        ("stdout_digest", text("d8")),
        ("ticket_digest", text("d9")),
        ("other_digest", text("d1")),
        ("note", text("d1")),
        ("input_digests", object(vec![("ticket", text("d9")), ("count", JsonValue::Number("5".into()))])),
        ("nested", JsonValue::Array(vec![object(vec![("artifact_digest", text("d8"))]), JsonValue::Null])),
    ]);
    assert_eq!(rewrite_digests(&value, &aliases), expected);
}

#[test]
fn digest_without_a_text_path_is_kept() {
    let aliases = aliases(&[("d1", "d9")]);
    let value = object(vec![("digest", text("d1")), ("path", JsonValue::Bool(true))]);
    assert_eq!(rewrite_digests(&value, &aliases), value);
}

#[test]
fn rewriting_through_no_aliases_keeps_the_value() {
    let value = object(vec![
        ("digest", text("d1")),
        ("path", text("artifacts/a.json")),
        ("items", JsonValue::Array(vec![JsonValue::Number("1.5".into()), JsonValue::Bool(false)])),
    ]);
    let expected = object(vec![
        ("digest", text("d1")),
        ("path", text("artifacts/a.json")),
        ("items", JsonValue::Array(vec![JsonValue::Number("1.5".into()), JsonValue::Bool(false)])),
    ]);
    assert_eq!(rewrite_digests(&value, &Vec::new()), expected);
}
