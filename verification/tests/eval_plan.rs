use seaf_loop::eval_engine::EvalCommandConfig;
use seaf_loop::eval_plan::{
    check_cwd_identity, check_directory_observation, check_executable_identity, check_opened_executable,
    check_read_executable, eval_check_execution, executable_identity, finish_eval_check_plan, pre_spawn_rejection,
    retained_output_bytes, EvalCheckPlan, EvalCommandOutput, EvalPlan, FileObservation, PlannedDirectoryIdentity,
    PlannedExecutableIdentity,
};
use seaf_loop::eval_engine::CheckStatus;

fn config(name: &str, timeout_ms: Option<u64>, max_output_bytes: Option<usize>) -> EvalCommandConfig {
    EvalCommandConfig {
        name: name.to_string(),
        command: "cargo test --all".to_string(),
        cwd: None,
        env: vec![("RUST_LOG".to_string(), "debug".to_string())],
        timeout_ms,
        max_output_bytes,
    }
}

fn directory(path: &str, inode: u64) -> PlannedDirectoryIdentity {
    PlannedDirectoryIdentity { canonical_path: path.to_string(), device: 7, inode }
}

fn executable(path: &str, digest: &str) -> PlannedExecutableIdentity {
    PlannedExecutableIdentity { canonical_path: path.to_string(), digest: digest.to_string(), device: 7, inode: 40 }
}

fn argv() -> Vec<String> {
    vec!["cargo".to_string(), "test".to_string(), "--all".to_string()]
}

fn plan() -> EvalCheckPlan {
    finish_eval_check_plan(
        &config("unit", None, None),
        &argv(),
        "/usr/bin/cargo".to_string(),
        "/work".to_string(),
        directory("/work", 11),
        executable("/usr/bin/cargo", "ab"),
    )
    .unwrap()
}

fn observation(is_symlink: bool, is_file: bool, is_dir: bool, inode: u64) -> FileObservation {
    FileObservation { is_symlink, is_file, is_dir, device: 7, inode }
}

#[test]
fn finished_plan_resolves_the_program_and_applies_default_limits() {
    let plan = plan();
    assert_eq!(plan.name, "unit");
    assert_eq!(plan.argv, vec!["/usr/bin/cargo".to_string(), "test".to_string(), "--all".to_string()]);
    assert_eq!(plan.cwd, "/work");
    assert_eq!(plan.env, vec![("RUST_LOG".to_string(), "debug".to_string())]);
    assert_eq!(plan.timeout_ms, 120_000);
    assert_eq!(plan.max_output_bytes, 64 * 1024);
    assert_eq!(plan.cwd_identity, directory("/work", 11));
    assert_eq!(plan.executable_identity, executable("/usr/bin/cargo", "ab"));
}

#[test]
fn finished_plan_refuses_out_of_range_limits_timeout_first() {
    let both = finish_eval_check_plan(
        &config("unit", Some(0), Some(0)),
        &argv(),
        "/usr/bin/cargo".to_string(),
        "/work".to_string(),
        directory("/work", 11),
        executable("/usr/bin/cargo", "ab"),
    )
    .unwrap_err();
    assert_eq!(both.to_string(), "eval check unit timeout_ms must be between 1 and 3600000");
    assert!(!both.is_authority_rejection());
    let output = finish_eval_check_plan(
        &config("unit", Some(3_600_000), Some(1024 * 1024 + 1)),
        &argv(),
        "/usr/bin/cargo".to_string(),
        "/work".to_string(),
        directory("/work", 11),
        executable("/usr/bin/cargo", "ab"),
    )
    .unwrap_err();
    assert_eq!(output.to_string(), "eval check unit max_output_bytes must be between 1 and 1048576");
}

#[test]
fn executable_identity_digests_the_contents() {
    let identity = executable_identity("/bin/tool".to_string(), b"abc", 3, 9);
    assert_eq!(identity.digest, "ba7816bf8f01cfea414140de5dae2223b00361a396177a9cb410ff61f20015ad");
    assert_eq!(identity.canonical_path, "/bin/tool");
    assert_eq!((identity.device, identity.inode), (3, 9));
}

#[test]
fn working_directory_must_be_a_real_directory() {
    assert!(check_directory_observation("unit", observation(false, false, true, 1)).is_ok());
    assert_eq!(
        check_directory_observation("unit", observation(true, false, true, 1)).unwrap_err().to_string(),
        "eval check unit cwd identity is not a real directory"
    );
    assert!(check_directory_observation("unit", observation(false, true, false, 1)).is_err());
}

#[test]
fn opened_executable_must_stay_the_same_regular_file() {
    let opened = observation(false, true, false, 40);
    assert!(check_opened_executable("unit", opened, observation(false, true, false, 40)).is_ok());
    assert_eq!(
        check_opened_executable("unit", opened, observation(false, true, false, 41)).unwrap_err().to_string(),
        "eval check unit executable identity is not a stable regular file"
    );
    assert!(check_opened_executable("unit", observation(false, false, false, 40), opened).is_err());
    assert!(check_opened_executable("unit", opened, observation(true, true, false, 40)).is_err());
    assert!(check_read_executable("unit", opened, observation(false, true, false, 40)).is_ok());
    assert_eq!(
        check_read_executable("unit", opened, observation(false, false, false, 40)).unwrap_err().to_string(),
        "eval check unit executable identity changed while reading"
    );
}

#[test]
fn spawn_requires_the_planned_identities() {
    let plan = plan();
    assert!(check_cwd_identity(&plan, &directory("/work", 11)).is_ok());
    assert_eq!(
        check_cwd_identity(&plan, &directory("/work", 12)).unwrap_err().to_string(),
        "eval check unit cwd identity changed after planning"
    );
    assert!(check_cwd_identity(&plan, &directory("/elsewhere", 11)).is_err());
    assert!(check_executable_identity(&plan, &executable("/usr/bin/cargo", "ab")).is_ok());
    assert_eq!(
        check_executable_identity(&plan, &executable("/usr/bin/cargo", "cd")).unwrap_err().to_string(),
        "eval check unit executable identity changed after planning"
    );
}

#[test]
fn pre_spawn_rejection_is_an_authority_rejection() {
    let error = pre_spawn_rejection("unit", "prefix changed");
    assert_eq!(error.to_string(), "eval check unit pre-spawn authority rejected: prefix changed");
    assert!(error.is_authority_rejection());
}

#[test]
fn plan_keeps_checks_in_config_order() {
    let first = plan();
    let mut second = plan();
    second.name = "lint".to_string();
    let plan = EvalPlan::new(vec![first, second]);
    let names: Vec<&str> = plan.checks().iter().map(|check| check.name.as_str()).collect();
    assert_eq!(names, vec!["unit", "lint"]);
}

#[test]
fn running_checks_keep_the_redaction_lookahead() {
    assert_eq!(retained_output_bytes(64 * 1024), 64 * 1024 + 26);
    assert_eq!(retained_output_bytes(usize::MAX - 3), usize::MAX);
}

#[test]
fn execution_record_sanitizes_logs_and_summarizes_the_exit() {
    let mut plan = plan();
    plan.env = vec![("API_TOKEN".to_string(), "hunter2hunter2".to_string())];
    plan.max_output_bytes = 16;
    let output = EvalCommandOutput {
        timed_out: false,
        exit_code: Some(3),
        success: false,
        stdout: b"token hunter2hunter2 seen".to_vec(),
        stderr: b"ok".to_vec(),
    };
    let record = eval_check_execution(&plan, &output, u128::from(u64::MAX) + 5);
    assert_eq!(record.name, "unit");
    assert_eq!(record.status, CheckStatus::Failed);
    assert_eq!(record.duration_ms, u64::MAX);
    assert_eq!(record.stdout, "token [REDACTED]");
    assert_eq!(record.stderr, "ok");
    assert_eq!(record.summary, "command exited with code 3");
    let passed = EvalCommandOutput { timed_out: false, exit_code: Some(0), success: true, stdout: vec![], stderr: vec![] };
    let record = eval_check_execution(&plan, &passed, 12);
    assert_eq!((record.status, record.duration_ms), (CheckStatus::Passed, 12));
    let timed_out = EvalCommandOutput { timed_out: true, exit_code: None, success: false, stdout: vec![], stderr: vec![] };
    assert_eq!(eval_check_execution(&plan, &timed_out, 1).summary, "command timed out after 120000ms");
}
