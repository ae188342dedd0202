use seaf_loop::operator_evidence::{OperatorEvidenceGuard, SecretRedactor, OPERATOR_EVIDENCE_ERROR};

fn guard_for(secret: &str) -> OperatorEvidenceGuard {
    let env = vec![("API_TOKEN".to_string(), secret.to_string())];
    OperatorEvidenceGuard::new(SecretRedactor::from_env_maps(&[env]))
}

#[test]
fn exact_raw_bytes_reject_secret_spanning_redaction_marker() {
    let guard = guard_for("prefix[REDACTED]suffix");

    let error = guard
        .validate_exact_raw_bytes(b"prefix[REDACTED]suffix")
        .unwrap_err();

    assert_eq!(error, OPERATOR_EVIDENCE_ERROR);
}

#[test]
fn clean_bytes_pass_and_embedded_secret_is_refused() {
    let guard = guard_for("s3cr3t-value");
    assert!(guard.validate_exact_raw_bytes(b"nothing to see here").is_ok());
    assert_eq!(
        guard.validate_exact_raw_bytes(b"leading s3cr3t-value trailing").unwrap_err(),
        OPERATOR_EVIDENCE_ERROR
    );
}

#[test]
fn only_secret_named_non_empty_variables_are_prohibited() {
    let env = vec![
        ("HOME".to_string(), "/home/user".to_string()),
        ("DB_PASSWORD".to_string(), "hunter2".to_string()),
        ("EMPTY_SECRET".to_string(), String::new()),
    ];
    let guard = OperatorEvidenceGuard::new(SecretRedactor::from_env_maps(&[env]));
    assert!(guard.validate_structural("/home/user").is_ok());
    assert!(guard.validate_structural("x hunter2 y").is_err());
    assert!(guard.validate_structural("").is_ok());
}

#[test]
fn recovery_fields_and_run_approvers_are_screened() {
    let guard = guard_for("topsecret");
    assert!(guard.validate_recovery_fields("operator", "routine").is_ok());
    assert!(guard.validate_recovery_fields("topsecret", "routine").is_err());
    assert!(guard.validate_recovery_fields("operator", "has topsecret inside").is_err());
    assert!(guard.validate_run(Some("alice"), None).is_ok());
    assert!(guard.validate_run(Some("alice"), Some("topsecret")).is_err());
}
