use seaf_loop::eval_engine::{
    is_configured_secret_prefix, is_labeled_configured_secret_prefix, is_obvious_standalone_secret,
    is_sensitive_name, normalize_eval_timeout, redact_tokens, trim_secret_token, RedactionPass,
};
use seaf_loop::evaluation_storage::{add_residual, add_slot, empty_commitment};
use seaf_loop::inspect::{current_evaluation_prefix_paths, valid_extension, StepRecordSummary};
use seaf_loop::migration::{validate_projected_migration_inventory, RunTreeEntry};
use seaf_loop::number::{decimal_exec, pad3_exec};
use seaf_loop::operator_evidence::SecretRedactor;
use seaf_loop::policy::split_char_exec;
use seaf_loop::text::{lex_less, replace_all_exec, sort_unique, trim_exec};

fn chars(text: &str) -> Vec<char> {
    text.chars().collect()
}

fn text(chars: &[char]) -> String {
    chars.iter().collect()
}

/// A credential-shaped token, assembled from its prefix and body.
fn token(prefix: &str, body: &str) -> String {
    [prefix, body].concat()
}

fn env(pairs: &[(&str, &str)]) -> Vec<(String, String)> {
    pairs.iter().map(|(k, v)| (k.to_string(), v.to_string())).collect()
}

#[test]
fn timeouts_default_to_two_minutes_and_stay_within_an_hour() {
    assert_eq!(normalize_eval_timeout("unit", None).unwrap(), 120_000);
    assert_eq!(normalize_eval_timeout("unit", Some(3_600_000)).unwrap(), 3_600_000);
    assert_eq!(
        normalize_eval_timeout("unit", Some(3_600_001)).unwrap_err().message,
        "eval check unit timeout_ms must be between 1 and 3600000"
    );
    assert!(normalize_eval_timeout("unit", Some(0)).is_err());
}

#[test]
fn sensitive_names_are_recognized_in_any_case() {
    assert!(is_sensitive_name(&chars("api_key")));
    assert!(is_sensitive_name(&chars("GitHubToken")));
    assert!(is_sensitive_name(&chars("db_Password")));
    assert!(is_sensitive_name(&chars("client-secret")));
    assert!(!is_sensitive_name(&chars("RUST_LOG")));
}

#[test]
fn secret_tokens_lose_only_wrapping_punctuation() {
    assert_eq!(text(&trim_secret_token(&chars("(\"sk-abc\"),"))), "sk-abc");
    assert_eq!(text(&trim_secret_token(&chars("a.b"))), "a.b");
    assert_eq!(text(&trim_secret_token(&chars("..."))), "");
}

#[test]
fn standalone_secrets_need_a_known_prefix_and_a_long_body() {
    assert!(is_obvious_standalone_secret(&chars(&token("ghp_", "abcdefghijklmnop"))));
    assert!(is_obvious_standalone_secret(&chars(&format!("\"{}\",", token("sk-proj-", "0123456789abcdef")))));
    assert!(!is_obvious_standalone_secret(&chars(&token("ghp_", "abcdefghijklmno"))));
    assert!(!is_obvious_standalone_secret(&chars(&token("ghp_", "abcdefghijklmno!"))));
    assert!(!is_obvious_standalone_secret(&chars("token_abcdefghijklmnopqrs")));
}

#[test]
fn configured_secret_prefixes_are_recognized_bare_and_labeled() {
    let configured = env(&[("API_TOKEN", "hunter2hunter2"), ("RUST_LOG", "debugging")]);
    assert!(is_configured_secret_prefix(&chars("hunter2"), &configured));
    assert!(!is_configured_secret_prefix(&chars("hunter2hunter2"), &configured));
    assert!(!is_configured_secret_prefix(&chars("debug"), &configured));
    assert!(is_configured_secret_prefix(&chars("API_TOKEN=hunt"), &configured));
    assert!(is_labeled_configured_secret_prefix(&chars("password:hunt"), &chars("API_TOKEN"), &chars("hunter2hunter2")));
    assert!(!is_labeled_configured_secret_prefix(&chars("user:hunt"), &chars("API_TOKEN"), &chars("hunter2hunter2")));
}

#[test]
fn redaction_passes_rewrite_tokens_and_keep_whitespace() {
    let none = env(&[]);
    assert_eq!(
        text(&redact_tokens(&chars("set password=abc  and\tuser=bob"), RedactionPass::SensitiveAssignments, &none)),
        "set password=[REDACTED]  and\tuser=bob"
    );
    assert_eq!(
        text(&redact_tokens(
            &chars(&format!("auth: {} x:{}", token("ghp_", "abcdefghijklmnop"), token("xoxb-", "1234567890abcdef"))),
            RedactionPass::StandaloneSecrets,
            &none
        )),
        "auth: [REDACTED] x:[REDACTED]"
    );
    let configured = env(&[("API_TOKEN", "hunter2hunter2")]);
    assert_eq!(
        text(&redact_tokens(&chars("saw hunter2 once"), RedactionPass::ConfiguredPrefixes, &configured)),
        "saw [REDACTED] once"
    );
}

#[test]
fn storage_commitment_accounts_slots_and_residuals() {
    let mut commitment = empty_commitment();
    add_slot(&mut commitment, "artifacts/07-testing.json".to_string(), 100).unwrap();
    add_residual(&mut commitment, 5).unwrap();
    assert_eq!(commitment.permanent_bytes, 105);
    assert_eq!(commitment.permanent_entries, 1);
    assert_eq!(commitment.consumable_permanent_paths, vec![("artifacts/07-testing.json".to_string(), 100)]);
    assert_eq!(
        add_residual(&mut commitment, u64::MAX).unwrap_err(),
        "evaluation commitment byte accounting overflowed"
    );
    assert_eq!(commitment.permanent_bytes, 105);
}

#[test]
fn extensions_are_run_id_characters() {
    assert!(valid_extension(&chars("json")));
    assert!(valid_extension(&chars("tar-gz_1")));
    assert!(!valid_extension(&chars("")));
    assert!(!valid_extension(&chars("j.s")));
}

#[test]
fn evaluation_prefix_paths_come_sorted_and_once() {
    let records = vec![
        StepRecordSummary {
            evaluation_step: true,
            artifact_path: Some("artifacts/08-eval-report.json".to_string()),
            artifact_digest: None,
        },
        StepRecordSummary {
            evaluation_step: true,
            artifact_path: Some("artifacts/07-testing.json".to_string()),
            artifact_digest: None,
        },
        StepRecordSummary {
            evaluation_step: false,
            artifact_path: Some("artifacts/07-testing-extra.json".to_string()),
            artifact_digest: None,
        },
        StepRecordSummary {
            evaluation_step: true,
            artifact_path: Some("artifacts/03-plan.json".to_string()),
            artifact_digest: None,
        },
    ];
    let paths = current_evaluation_prefix_paths(&records, &Some("artifacts/08-eval-report.json".to_string()));
    assert_eq!(paths, vec!["artifacts/07-testing.json".to_string(), "artifacts/08-eval-report.json".to_string()]);
}

#[test]
fn projected_migration_inventory_respects_both_caps() {
    let inventory = vec![
        (b"a".to_vec(), RunTreeEntry::File { len: 10, digest: vec![0; 32] }),
        (b"d".to_vec(), RunTreeEntry::Directory),
        (b"l".to_vec(), RunTreeEntry::Symlink(b"a".to_vec())),
    ];
    assert!(validate_projected_migration_inventory(&inventory, 3, 10).is_ok());
    assert_eq!(
        validate_projected_migration_inventory(&inventory, 2, 10).unwrap_err().message,
        "projected migration tree exceeds its 2-entry cap"
    );
    assert_eq!(
        validate_projected_migration_inventory(&inventory, 3, 9).unwrap_err().message,
        "projected migration tree exceeds its 9-byte cap"
    );
    let overflowing = vec![
        (b"a".to_vec(), RunTreeEntry::File { len: u64::MAX, digest: vec![] }),
        (b"b".to_vec(), RunTreeEntry::File { len: 1, digest: vec![] }),
    ];
    assert_eq!(
        validate_projected_migration_inventory(&overflowing, 3, u64::MAX).unwrap_err().message,
        "projected migration byte total overflowed"
    );
}

#[test]
fn decimal_spellings() {
    assert_eq!(text(&decimal_exec(0)), "0");
    assert_eq!(text(&decimal_exec(1_234_567)), "1234567");
    assert_eq!(text(&pad3_exec(7)), "007");
    assert_eq!(text(&pad3_exec(42)), "042");
    assert_eq!(text(&pad3_exec(1234)), "1234");
}

#[test]
fn operator_evidence_secrets_are_found_inside_bytes() {
    let redactor = SecretRedactor::from_env_maps(&[env(&[("API_KEY", "s3cr3t"), ("HOME", "/home/x")])]);
    assert!(redactor.contains_prohibited_bytes(b"value=s3cr3t;"));
    assert!(!redactor.contains_prohibited_bytes(b"/home/x"));
    assert!(!redactor.contains_prohibited_bytes(b"s3cr"));
}

#[test]
fn splitting_keeps_empty_fields() {
    let parts: Vec<String> = split_char_exec(&chars("a//b/"), '/').iter().map(|p| text(p)).collect();
    assert_eq!(parts, vec!["a", "", "b", ""]);
}

#[test]
fn text_helpers() {
    assert_eq!(text(&trim_exec(&chars(" \t x y \n"))), "x y");
    assert_eq!(text(&replace_all_exec(&chars("aXbXc"), &chars("X"), &chars("--"))), "a--b--c");
    assert!(lex_less(&chars("abc"), &chars("abd")));
    assert!(lex_less(&chars("ab"), &chars("abc")));
    assert!(!lex_less(&chars("b"), &chars("abc")));
    let sorted = sort_unique(&vec!["b".to_string(), "a".to_string(), "b".to_string()]);
    assert_eq!(sorted, vec!["a".to_string(), "b".to_string()]);
}
