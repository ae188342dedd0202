//! Evaluation plans: what planning fixed for each required check before anything runs,
//! and the checks made against that record before each spawn.
use vstd::prelude::*;

use crate::digest::{digest_hex, digest_hex_spec};
use crate::eval_engine::{
    check_error, check_message, check_outcome, check_summary_spec, normalize_eval_output_limit,
    normalize_eval_timeout, output_limit_spec, sanitize_eval_log, sanitize_eval_log_spec, strings_view, env_sorted,
    timeout_spec, CheckStatus, EvalCommandConfig, EvalEngineError,
};
use crate::text::{append_chars, chars_of, seq_eq, string_of};

verus! {

/// The shortest secret body that must follow a recognized secret prefix.
pub const MIN_OBVIOUS_SECRET_SUFFIX_BYTES: usize = 16;

/// The longest recognized secret prefix.
pub const MAX_OBVIOUS_SECRET_PREFIX_BYTES: usize = 11;

/// Output kept past a check's limit, so that a token that begins at the last kept byte
/// can still be recognized as a secret and redacted.
pub const EVAL_REDACTION_LOOKAHEAD_BYTES: usize = MAX_OBVIOUS_SECRET_PREFIX_BYTES
    + MIN_OBVIOUS_SECRET_SUFFIX_BYTES - 1;

/// How many bytes of each output stream a running check keeps: its limit plus the
/// redaction lookahead, saturating.
pub fn retained_output_bytes(max_output_bytes: usize) -> (r: usize)
    ensures
        r == (if max_output_bytes + EVAL_REDACTION_LOOKAHEAD_BYTES <= usize::MAX {
            (max_output_bytes + EVAL_REDACTION_LOOKAHEAD_BYTES) as usize
        } else {
            usize::MAX
        }),
{
    max_output_bytes.saturating_add(EVAL_REDACTION_LOOKAHEAD_BYTES)
}

/// What a finished command left: whether it timed out, how it exited, and the bytes
/// kept of its two output streams.
#[derive(Debug, Clone, PartialEq, Eq)]
pub struct EvalCommandOutput {
    pub timed_out: bool,
    pub exit_code: Option<i32>,
    pub success: bool,
    pub stdout: Vec<u8>,
    pub stderr: Vec<u8>,
}

/// The record of one check that ran.
#[derive(Debug, Clone, PartialEq, Eq)]
pub struct EvalCheckExecution {
    pub name: String,
    pub status: CheckStatus,
    pub duration_ms: u64,
    pub stdout: String,
    pub stderr: String,
    pub summary: String,
}

/// A working directory as planning found it.
#[derive(Debug, Clone, PartialEq, Eq)]
pub struct PlannedDirectoryIdentity {
    pub canonical_path: String,
    pub device: u64,
    pub inode: u64,
}

/// An executable as planning found it, with the digest of its contents.
#[derive(Debug, Clone, PartialEq, Eq)]
pub struct PlannedExecutableIdentity {
    pub canonical_path: String,
    pub digest: String,
    pub device: u64,
    pub inode: u64,
}

/// What the file system reported of one path at one moment.
#[derive(Debug, Clone, Copy, PartialEq, Eq)]
pub struct FileObservation {
    pub is_symlink: bool,
    pub is_file: bool,
    pub is_dir: bool,
    pub device: u64,
    pub inode: u64,
}

/// One required check, ready to run.
#[derive(Debug)]
pub struct EvalCheckPlan {
    pub name: String,
    pub argv: Vec<String>,
    pub cwd: String,
    /// The check's environment, in name order.
    pub env: Vec<(String, String)>,
    pub timeout_ms: u64,
    pub max_output_bytes: usize,
    pub cwd_identity: PlannedDirectoryIdentity,
    pub executable_identity: PlannedExecutableIdentity,
}

/// The planned required checks of an eval config, in config order.
#[derive(Debug)]
pub struct EvalPlan {
    checks: Vec<EvalCheckPlan>,
}

pub open spec fn env_view(env: Seq<(String, String)>) -> Seq<(Seq<char>, Seq<char>)> {
    env.map_values(|p: (String, String)| (p.0@, p.1@))
}

pub open spec fn same_directory(a: PlannedDirectoryIdentity, b: PlannedDirectoryIdentity) -> bool {
    &&& a.canonical_path@ == b.canonical_path@
    &&& a.device == b.device
    &&& a.inode == b.inode
}

pub open spec fn same_executable(a: PlannedExecutableIdentity, b: PlannedExecutableIdentity) -> bool {
    &&& a.canonical_path@ == b.canonical_path@
    &&& a.digest@ == b.digest@
    &&& a.device == b.device
    &&& a.inode == b.inode
}

impl EvalPlan {
    pub closed spec fn checks_view(&self) -> Seq<EvalCheckPlan> {
        self.checks@
    }

    pub fn new(checks: Vec<EvalCheckPlan>) -> (r: Self)
        ensures
            r.checks_view() == checks@,
    {
        EvalPlan { checks }
    }

    /// The planned checks, in the order in which they run.
    pub fn checks(&self) -> (r: &[EvalCheckPlan])
        ensures
            r@ == self.checks_view(),
    {
        self.checks.as_slice()
    }
}

fn copy_env(env: &Vec<(String, String)>) -> (r: Vec<(String, String)>)
    ensures
        env_view(r@) == env_view(env@),
{
    let mut out: Vec<(String, String)> = Vec::new();
    let mut i: usize = 0;
    while i < env.len()
        invariant
            i <= env.len(),
            out@.len() == i,
            forall|j: int| 0 <= j < i ==> (#[trigger] out@[j]).0@ == env@[j].0@ && out@[j].1@ == env@[j].1@,
        decreases env.len() - i,
    {
        out.push((env[i].0.clone(), env[i].1.clone()));
        i = i + 1;
    }
    assert(env_view(out@) =~= env_view(env@));
    out
}

/// A check's plan once the file system has placed it: the parsed command with its
/// program replaced by the resolved one, the resolved working directory, the check's
/// environment, both captured identities, and the check's timeout and output limit,
/// whose refusals come in that order.
pub fn finish_eval_check_plan(
    check: &EvalCommandConfig,
    argv: &Vec<String>,
    program: String,
    cwd: String,
    cwd_identity: PlannedDirectoryIdentity,
    executable_identity: PlannedExecutableIdentity,
) -> (r: Result<EvalCheckPlan, EvalEngineError>)
    requires
        argv.len() > 0,
        env_sorted(check.env@),
    ensures
        match (timeout_spec(check.timeout_ms), output_limit_spec(check.max_output_bytes)) {
            (Some(t), Some(m)) => r matches Ok(p) && p.name@ == check.name@ && strings_view(p.argv@)
                == strings_view(argv@).update(0, program@) && p.cwd@ == cwd@ && env_view(p.env@) == env_view(
                check.env@,
            ) && p.timeout_ms == t && p.max_output_bytes == m && p.cwd_identity == cwd_identity
                && p.executable_identity == executable_identity,
            (None, _) => r matches Err(e) && e.message@ == check_message(
                check.name@,
                " timeout_ms must be between 1 and 3600000"@,
            ) && !e.authority_rejection,
            (Some(_), None) => r matches Err(e) && e.message@ == check_message(
                check.name@,
                " max_output_bytes must be between 1 and 1048576"@,
            ) && !e.authority_rejection,
        },
{
    let timeout_ms = normalize_eval_timeout(check.name.as_str(), check.timeout_ms)?;
    let max_output_bytes = normalize_eval_output_limit(check.name.as_str(), check.max_output_bytes)?;
    let mut planned: Vec<String> = Vec::new();
    planned.push(program);
    let mut i: usize = 1;
    while i < argv.len()
        invariant
            1 <= i <= argv.len(),
            planned@.len() == i,
            planned@[0]@ == program@,
            forall|j: int| 1 <= j < i ==> (#[trigger] planned@[j])@ == argv@[j]@,
        decreases argv.len() - i,
    {
        planned.push(argv[i].clone());
        i = i + 1;
    }
    assert(strings_view(planned@) =~= strings_view(argv@).update(0, program@));
    Ok(
        EvalCheckPlan {
            name: check.name.clone(),
            argv: planned,
            cwd,
            env: copy_env(&check.env),
            timeout_ms,
            max_output_bytes,
            cwd_identity,
            executable_identity,
        },
    )
}

/// The identity of an executable from its canonical path, its contents and where it
/// lives: the digest is the lowercase hexadecimal SHA-256 of the contents.
pub fn executable_identity(canonical_path: String, contents: &[u8], device: u64, inode: u64) -> (r:
    PlannedExecutableIdentity)
    ensures
        r.canonical_path@ == canonical_path@,
        r.digest@ == digest_hex_spec(contents@),
        r.device == device,
        r.inode == inode,
{
    PlannedExecutableIdentity { canonical_path, digest: digest_hex(contents), device, inode }
}

/// A working directory counts as planned only when its canonical path is a real
/// directory, not a symlink.
pub fn check_directory_observation(name: &str, observed: FileObservation) -> (r: Result<(), EvalEngineError>)
    ensures
        !observed.is_symlink && observed.is_dir ==> r is Ok,
        observed.is_symlink || !observed.is_dir ==> (r matches Err(e) && e.message@ == check_message(
            name@,
            " cwd identity is not a real directory"@,
        ) && !e.authority_rejection),
{
    if observed.is_symlink || !observed.is_dir {
        return Err(check_error(name, &chars_of(" cwd identity is not a real directory")));
    }
    Ok(())
}

/// Whether two observations name one regular file: the second sees a regular file, not a
/// symlink, on the device and inode of the first.
pub open spec fn same_regular_file(opened: FileObservation, path: FileObservation) -> bool {
    &&& !path.is_symlink
    &&& path.is_file
    &&& opened.device == path.device
    &&& opened.inode == path.inode
}

/// An opened executable counts only when it is a regular file and its path, seen just
/// after the open, names that same regular file.
pub fn check_opened_executable(name: &str, opened: FileObservation, path: FileObservation) -> (r: Result<
    (),
    EvalEngineError,
>)
    ensures
        opened.is_file && same_regular_file(opened, path) ==> r is Ok,
        !(opened.is_file && same_regular_file(opened, path)) ==> (r matches Err(e) && e.message@
            == check_message(name@, " executable identity is not a stable regular file"@) && !e.authority_rejection),
{
    if !opened.is_file || path.is_symlink || !path.is_file || opened.device != path.device || opened.inode
        != path.inode {
        return Err(check_error(name, &chars_of(" executable identity is not a stable regular file")));
    }
    Ok(())
}

/// An executable's contents count only when its path still names the opened regular
/// file after they were read.
pub fn check_read_executable(name: &str, opened: FileObservation, path: FileObservation) -> (r: Result<
    (),
    EvalEngineError,
>)
    ensures
        same_regular_file(opened, path) ==> r is Ok,
        !same_regular_file(opened, path) ==> (r matches Err(e) && e.message@ == check_message(
            name@,
            " executable identity changed while reading"@,
        ) && !e.authority_rejection),
{
    if path.is_symlink || !path.is_file || opened.device != path.device || opened.inode != path.inode {
        return Err(check_error(name, &chars_of(" executable identity changed while reading")));
    }
    Ok(())
}

/// Before a spawn: the working directory must be the one planned.
pub fn check_cwd_identity(plan: &EvalCheckPlan, now: &PlannedDirectoryIdentity) -> (r: Result<
    (),
    EvalEngineError,
>)
    ensures
        same_directory(plan.cwd_identity, *now) ==> r is Ok,
        !same_directory(plan.cwd_identity, *now) ==> (r matches Err(e) && e.message@ == check_message(
            plan.name@,
            " cwd identity changed after planning"@,
        ) && !e.authority_rejection),
{
    let planned = &plan.cwd_identity;
    if !seq_eq(&chars_of(planned.canonical_path.as_str()), &chars_of(now.canonical_path.as_str()))
        || planned.device != now.device || planned.inode != now.inode {
        return Err(check_error(plan.name.as_str(), &chars_of(" cwd identity changed after planning")));
    }
    Ok(())
}

/// Before a spawn: the executable must be the one planned, contents included.
pub fn check_executable_identity(plan: &EvalCheckPlan, now: &PlannedExecutableIdentity) -> (r: Result<
    (),
    EvalEngineError,
>)
    ensures
        same_executable(plan.executable_identity, *now) ==> r is Ok,
        !same_executable(plan.executable_identity, *now) ==> (r matches Err(e) && e.message@ == check_message(
            plan.name@,
            " executable identity changed after planning"@,
        ) && !e.authority_rejection),
{
    let planned = &plan.executable_identity;
    if !seq_eq(&chars_of(planned.canonical_path.as_str()), &chars_of(now.canonical_path.as_str()))
        || !seq_eq(&chars_of(planned.digest.as_str()), &chars_of(now.digest.as_str()))
        || planned.device != now.device || planned.inode != now.inode {
        return Err(check_error(plan.name.as_str(), &chars_of(" executable identity changed after planning")));
    }
    Ok(())
}

/// The record of a check that ran: it passed when the command neither timed out nor
/// failed; both logs are sanitized against the check's environment and cut to its
/// output limit; the elapsed milliseconds saturate at `u64::MAX`.
pub fn eval_check_execution(plan: &EvalCheckPlan, output: &EvalCommandOutput, elapsed_ms: u128) -> (r:
    EvalCheckExecution)
    requires
        env_sorted(plan.env@),
    ensures
        r.name@ == plan.name@,
        r.status == (if !output.timed_out && output.success {
            CheckStatus::Passed
        } else {
            CheckStatus::Failed
        }),
        r.duration_ms == (if elapsed_ms <= u64::MAX {
            elapsed_ms as u64
        } else {
            u64::MAX
        }),
        r.stdout@ == sanitize_eval_log_spec(output.stdout@, plan.env@, plan.max_output_bytes as nat),
        r.stderr@ == sanitize_eval_log_spec(output.stderr@, plan.env@, plan.max_output_bytes as nat),
        r.summary@ == check_summary_spec(output.timed_out, output.exit_code, plan.timeout_ms),
{
    let duration_ms: u64 = if elapsed_ms <= 0xffff_ffff_ffff_ffffu128 {
        elapsed_ms as u64
    } else {
        0xffff_ffff_ffff_ffffu64
    };
    let stdout = sanitize_eval_log(output.stdout.as_slice(), &plan.env, plan.max_output_bytes);
    let stderr = sanitize_eval_log(output.stderr.as_slice(), &plan.env, plan.max_output_bytes);
    let (status, summary) = check_outcome(output.timed_out, output.exit_code, output.success, plan.timeout_ms);
    EvalCheckExecution { name: plan.name.clone(), status, duration_ms, stdout, stderr, summary }
}

/// The refusal of a check whose pre-spawn authority check failed; it marks itself as an
/// authority rejection.
pub fn pre_spawn_rejection(name: &str, reason: &str) -> (r: EvalEngineError)
    ensures
        r.message@ == check_message(name@, " pre-spawn authority rejected: "@ + reason@),
        r.authority_rejection,
{
    let mut m = chars_of("eval check ");
    append_chars(&mut m, &chars_of(name));
    append_chars(&mut m, &chars_of(" pre-spawn authority rejected: "));
    append_chars(&mut m, &chars_of(reason));
    proof {
        assert(m@ =~= check_message(name@, " pre-spawn authority rejected: "@ + reason@));
    }
    EvalEngineError::authority(string_of(&m))
}

} // verus!
