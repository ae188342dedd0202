use seaf_loop::eval_engine::{
    check_outcome, ensure_command_allowed, is_safe_env_name, looks_like_text_without_shebang,
    normalize_eval_output_limit, shebang_words,
    parse_eval_command, plan_eval_check_command, plan_eval_check_limits, sanitize_eval_log,
    truncate_to_bytes, validate_eval_env, CheckStatus, EvalCommandConfig, EvalEngineError,
};

fn config(name: &str, command: &str) -> EvalCommandConfig {
    EvalCommandConfig {
        name: name.to_string(),
        command: command.to_string(),
        cwd: None,
        env: Vec::new(),
        timeout_ms: None,
        max_output_bytes: None,
    }
}

fn strings(v: &[&str]) -> Vec<String> {
    v.iter().map(|s| s.to_string()).collect()
}

#[test]
fn commands_split_on_whitespace_without_shell_syntax() {
    assert_eq!(
        parse_eval_command("  cargo   test --all\t-q ").unwrap(),
        strings(&["cargo", "test", "--all", "-q"])
    );
    assert_eq!(
        parse_eval_command("a; b").unwrap_err(),
        "shell metacharacter ';' is not supported"
    );
    assert_eq!(
        parse_eval_command("echo $(id)").unwrap_err(),
        "shell metacharacter '$(' is not supported"
    );
    assert_eq!(
        parse_eval_command("echo \"x\"").unwrap_err(),
        "quoted shell syntax is not supported"
    );
    assert_eq!(
        parse_eval_command("a\0b").unwrap_err(),
        "command must not contain NUL bytes"
    );
    assert_eq!(parse_eval_command("   ").unwrap_err(), "command must not be empty");
    assert_eq!(
        parse_eval_command("a|b>c").unwrap_err(),
        "shell metacharacter '|' is not supported"
    );
}

#[test]
fn allowlists_match_word_prefixes() {
    let argv = strings(&["cargo", "test", "--all"]);
    assert!(ensure_command_allowed(&argv, &strings(&["npm test", "cargo test"])).is_ok());
    assert_eq!(
        ensure_command_allowed(&argv, &strings(&["cargo build"])).unwrap_err(),
        "cargo test --all is not allowed"
    );
    assert_eq!(
        ensure_command_allowed(&argv, &strings(&["bad;entry"])).unwrap_err(),
        "invalid allowlist entry \"bad;entry\": shell metacharacter ';' is not supported"
    );
}

#[test]
fn planning_names_the_check_in_each_refusal() {
    let allow = strings(&["cargo test"]);
    assert_eq!(
        plan_eval_check_command(&config("unit", "cargo test"), &allow, None).unwrap(),
        strings(&["cargo", "test"])
    );
    let error = plan_eval_check_command(&config(" ", "cargo test"), &allow, None).unwrap_err();
    assert_eq!(error.to_string(), "eval check name must not be empty");
    let error = plan_eval_check_command(&config("unit", "make"), &allow, None).unwrap_err();
    assert_eq!(
        error.to_string(),
        "eval check unit command rejected by eval allow_commands: make is not allowed"
    );
    let ticket = strings(&["cargo test --lib"]);
    let error =
        plan_eval_check_command(&config("unit", "cargo test"), &allow, Some(&ticket)).unwrap_err();
    assert_eq!(
        error.to_string(),
        "eval check unit command rejected by ticket autonomy: cargo test is not allowed"
    );
    assert!(!error.is_authority_rejection());
    assert!(EvalEngineError::authority("x".to_string()).is_authority_rejection());
}

#[test]
fn limits_default_and_stay_in_range() {
    let mut check = config("unit", "true");
    assert_eq!(plan_eval_check_limits(&check).unwrap(), (120_000, 64 * 1024));
    check.timeout_ms = Some(0);
    assert_eq!(
        plan_eval_check_limits(&check).unwrap_err().to_string(),
        "eval check unit timeout_ms must be between 1 and 3600000"
    );
    check.timeout_ms = Some(3_600_000);
    check.max_output_bytes = Some(1024 * 1024 + 1);
    assert_eq!(
        plan_eval_check_limits(&check).unwrap_err().to_string(),
        "eval check unit max_output_bytes must be between 1 and 1048576"
    );
    assert_eq!(normalize_eval_output_limit("x", Some(1)).unwrap(), 1);
}

#[test]
fn environment_names_are_checked_in_order() {
    assert!(is_safe_env_name("_A1"));
    assert!(!is_safe_env_name("1A"));
    assert!(!is_safe_env_name(""));
    assert!(!is_safe_env_name("A-B"));
    let mut check = config("unit", "true");
    check.env = vec![("Path".to_string(), "x".to_string())];
    assert_eq!(
        validate_eval_env(&check).unwrap_err().to_string(),
        "eval check unit env var \"Path\" is not allowed"
    );
    check.env = vec![("GOOD".to_string(), "a\0b".to_string())];
    assert_eq!(
        validate_eval_env(&check).unwrap_err().to_string(),
        "eval check unit env var \"GOOD\" value must not contain NUL bytes"
    );
    check.env = vec![("A B".to_string(), "x".to_string())];
    assert_eq!(
        validate_eval_env(&check).unwrap_err().to_string(),
        "eval check unit env var \"A B\" is invalid"
    );
}

#[test]
fn logs_are_redacted_and_bounded() {
    let env = vec![("API_TOKEN".to_string(), "supersecretvalue123".to_string())];
    let out = sanitize_eval_log(b"token supersecretvalue123 end", &env, 1024);
    assert_eq!(out, "token [REDACTED] end");
    let out = sanitize_eval_log(b"prefix: supersec rest", &env, 1024);
    assert_eq!(out, "prefix: [REDACTED] rest");
    let out = sanitize_eval_log(b"DB_PASSWORD=hunter2 ok", &Vec::new(), 1024);
    assert_eq!(out, "DB_PASSWORD=[REDACTED] ok");
    let mixed = format!("key {}{} and x:{}{}", "ghp_", "abcdefghijklmnop1234", "sk-proj-", "ABCDEFGHIJKLMNOPQR");
    let out = sanitize_eval_log(mixed.as_bytes(), &Vec::new(), 1024);
    assert_eq!(out, "key [REDACTED] and x:[REDACTED]");
    let out = sanitize_eval_log("h\u{e9}llo".as_bytes(), &Vec::new(), 2);
    assert_eq!(out, "h");
    let out = sanitize_eval_log(&[0x66, 0xff, 0x6f], &Vec::new(), 1024);
    assert_eq!(out, "f\u{fffd}o");
    assert_eq!(truncate_to_bytes(&"ab\u{1f600}".chars().collect(), 5).len(), 2);
}

#[test]
fn outcomes_summarize_how_the_command_ended() {
    assert_eq!(
        check_outcome(false, Some(0), true, 10),
        (CheckStatus::Passed, "command exited with code 0".to_string())
    );
    assert_eq!(
        check_outcome(false, Some(-2), false, 10),
        (CheckStatus::Failed, "command exited with code -2".to_string())
    );
    assert_eq!(
        check_outcome(true, None, false, 1500),
        (CheckStatus::Failed, "command timed out after 1500ms".to_string())
    );
    assert_eq!(
        check_outcome(false, None, false, 10),
        (CheckStatus::Failed, "command terminated by signal".to_string())
    );
}

#[test]
fn text_without_a_shebang_is_recognized() {
    assert!(looks_like_text_without_shebang(b""));
    assert!(looks_like_text_without_shebang(b"echo hello\n\tdone\r\n"));
    assert!(!looks_like_text_without_shebang(b"\x7fELF\x02\x01\x01"));
    assert!(!looks_like_text_without_shebang(&[0xff, 0xfe, 0x00]));
    let mut long = vec![b'a'; 511];
    long.extend_from_slice("é".as_bytes());
    assert!(!looks_like_text_without_shebang(&long), "a character cut by the sample is not text");
    let mut later_binary = vec![b'a'; 600];
    later_binary.push(0);
    assert!(looks_like_text_without_shebang(&later_binary), "only the sample is read");
}

#[test]
fn shebang_words_come_from_the_first_line() {
    assert_eq!(
        shebang_words(b"#!/usr/bin/env  python3 -u\nprint(1)\n"),
        Some(vec!["/usr/bin/env".to_string(), "python3".to_string(), "-u".to_string()])
    );
    assert_eq!(shebang_words(b"#!"), Some(Vec::new()));
    assert_eq!(shebang_words(b"echo"), None);
}
