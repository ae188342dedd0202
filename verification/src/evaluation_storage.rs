//! Storage commitments of evaluation: how many bytes and directory entries an evaluation
//! attempt, or a recovery of one, may still write, and which paths consume them.
use vstd::prelude::*;

use crate::evaluation_attempt::{
    indexed_intent_path, indexed_report_path, indexed_testing_path, log_path, EvaluationAttemptPaths,
    Spelling,
};
use crate::eval_engine::{check_message, normalize_eval_output_limit, output_limit_spec, EvalCommandConfig};
use crate::digest::{digest_hex, digest_hex_spec};
use crate::number::{pad3, pad3_exec};
use crate::text::{
    append_chars, chars_of, ends_with, has_suffix, opt_view, replace_all_exec, seq_eq, string_of,
};

verus! {

/// The cap on one evaluation artifact (Testing evidence, EvalReport, recovery records).
pub const EVALUATION_ARTIFACT_CAP: u64 = 2 * 1024 * 1024;

/// The cap on the replacement of `run.json` that ends a transition.
pub const FINAL_RUN_REPLACEMENT_CAP: u64 = 2 * 1024 * 1024;

/// Reserved storage: permanent bytes and entries, the slots that later writes consume,
/// and one transient replacement.
#[derive(Debug, Clone, PartialEq, Eq)]
pub struct StorageCommitment {
    pub permanent_bytes: u64,
    pub transient_bytes: u64,
    pub permanent_entries: u64,
    pub transient_entries: u64,
    pub consumable_permanent_paths: Vec<(String, u64)>,
    pub consumable_transient_path: Option<String>,
}

pub struct CommitmentView {
    pub permanent_bytes: u64,
    pub transient_bytes: u64,
    pub permanent_entries: u64,
    pub transient_entries: u64,
    pub paths: Seq<(Seq<char>, u64)>,
    pub transient_path: Option<Seq<char>>,
}

pub open spec fn slots_view(v: Seq<(String, u64)>) -> Seq<(Seq<char>, u64)> {
    v.map_values(|e: (String, u64)| (e.0@, e.1))
}

impl View for StorageCommitment {
    type V = CommitmentView;

    open spec fn view(&self) -> CommitmentView {
        CommitmentView {
            permanent_bytes: self.permanent_bytes,
            transient_bytes: self.transient_bytes,
            permanent_entries: self.permanent_entries,
            transient_entries: self.transient_entries,
            paths: slots_view(self.consumable_permanent_paths@),
            transient_path: opt_view(self.consumable_transient_path),
        }
    }
}

pub open spec fn empty_commitment_spec() -> CommitmentView {
    CommitmentView {
        permanent_bytes: 0,
        transient_bytes: 0,
        permanent_entries: 0,
        transient_entries: 0,
        paths: seq![],
        transient_path: None,
    }
}

/// A commitment that reserves nothing.
pub fn empty_commitment() -> (c: StorageCommitment)
    ensures
        c@ == empty_commitment_spec(),
{
    let c = StorageCommitment {
        permanent_bytes: 0,
        transient_bytes: 0,
        permanent_entries: 0,
        transient_entries: 0,
        consumable_permanent_paths: Vec::new(),
        consumable_transient_path: None,
    };
    assert(slots_view(c.consumable_permanent_paths@) =~= seq![]);
    c
}

/// Reserves one more permanent entry of `bytes` bytes, consumed by writing `path`.
pub open spec fn add_slot_spec(c: CommitmentView, path: Seq<char>, bytes: u64) -> Result<
    CommitmentView,
    Seq<char>,
> {
    if c.permanent_bytes + bytes > u64::MAX {
        Err("evaluation commitment byte accounting overflowed"@)
    } else if c.permanent_entries + 1 > u64::MAX {
        Err("evaluation commitment entry accounting overflowed"@)
    } else {
        Ok(
            CommitmentView {
                permanent_bytes: (c.permanent_bytes + bytes) as u64,
                permanent_entries: (c.permanent_entries + 1) as u64,
                paths: c.paths.push((path, bytes)),
                ..c
            },
        )
    }
}

/// Reserves `bytes` more permanent bytes in an entry that already exists.
pub open spec fn add_residual_spec(c: CommitmentView, bytes: u64) -> Result<CommitmentView, Seq<char>> {
    if c.permanent_bytes + bytes > u64::MAX {
        Err("evaluation commitment byte accounting overflowed"@)
    } else {
        Ok(CommitmentView { permanent_bytes: (c.permanent_bytes + bytes) as u64, ..c })
    }
}

/// Adds a slot; on an entry-count overflow the bytes stay added, as they are added first.
pub fn add_slot(commitment: &mut StorageCommitment, path: String, bytes: u64) -> (r: Result<(), String>)
    ensures
        match r {
            Ok(()) => add_slot_spec(old(commitment)@, path@, bytes) == Ok::<CommitmentView, Seq<char>>(
                final(commitment)@,
            ),
            Err(m) => add_slot_spec(old(commitment)@, path@, bytes) == Err::<CommitmentView, Seq<char>>(
                m@,
            ) && final(commitment)@ == (if old(commitment).permanent_bytes + bytes > u64::MAX {
                old(commitment)@
            } else {
                CommitmentView {
                    permanent_bytes: (old(commitment).permanent_bytes + bytes) as u64,
                    ..old(commitment)@
                }
            }),
        },
{
    commitment.permanent_bytes = match commitment.permanent_bytes.checked_add(bytes) {
        Some(v) => v,
        None => {
            return Err(string_of(&chars_of("evaluation commitment byte accounting overflowed")));
        },
    };
    commitment.permanent_entries = match commitment.permanent_entries.checked_add(1) {
        Some(v) => v,
        None => {
            return Err(string_of(&chars_of("evaluation commitment entry accounting overflowed")));
        },
    };
    let ghost before = slots_view(commitment.consumable_permanent_paths@);
    let ghost p = path@;
    commitment.consumable_permanent_paths.push((path, bytes));
    assert(slots_view(commitment.consumable_permanent_paths@) =~= before.push((p, bytes)));
    Ok(())
}

/// Adds residual bytes; on overflow the commitment is unchanged.
pub fn add_residual(commitment: &mut StorageCommitment, bytes: u64) -> (r: Result<(), String>)
    ensures
        match r {
            Ok(()) => add_residual_spec(old(commitment)@, bytes) == Ok::<CommitmentView, Seq<char>>(
                final(commitment)@,
            ),
            Err(m) => add_residual_spec(old(commitment)@, bytes) == Err::<CommitmentView, Seq<char>>(
                m@,
            ) && final(commitment)@ == old(commitment)@,
        },
{
    commitment.permanent_bytes = match commitment.permanent_bytes.checked_add(bytes) {
        Some(v) => v,
        None => {
            return Err(string_of(&chars_of("evaluation commitment byte accounting overflowed")));
        },
    };
    Ok(())
}

/// Ends a commitment with the one transient replacement of `run.json`.
pub open spec fn with_run_replacement(c: CommitmentView) -> CommitmentView {
    CommitmentView {
        transient_bytes: FINAL_RUN_REPLACEMENT_CAP,
        transient_entries: 1,
        transient_path: Some("run.json"@),
        ..c
    }
}

fn set_run_replacement(commitment: &mut StorageCommitment)
    ensures
        final(commitment)@ == with_run_replacement(old(commitment)@),
{
    commitment.transient_bytes = FINAL_RUN_REPLACEMENT_CAP;
    commitment.transient_entries = 1;
    commitment.consumable_transient_path = Some(string_of(&chars_of("run.json")));
}

/// The id of the next recovery after the latest one, if any.
pub open spec fn next_recovery_id_spec(latest_recovery: Option<u32>) -> Result<u32, Seq<char>> {
    match latest_recovery {
        None => Ok(1),
        Some(id) => if id == u32::MAX {
            Err("recovery sequence is exhausted"@)
        } else {
            Ok((id + 1) as u32)
        },
    }
}

pub fn next_recovery_id(latest_recovery: Option<u32>) -> (r: Result<u32, String>)
    ensures
        match r {
            Ok(id) => next_recovery_id_spec(latest_recovery) == Ok::<u32, Seq<char>>(id),
            Err(m) => next_recovery_id_spec(latest_recovery) == Err::<u32, Seq<char>>(m@),
        },
{
    match latest_recovery {
        None => Ok(1),
        Some(id) => match id.checked_add(1) {
            Some(next) => Ok(next),
            None => Err(string_of(&chars_of("recovery sequence is exhausted"))),
        },
    }
}

pub open spec fn recovery_path_spec(id: u32) -> Seq<char> {
    "artifacts/recovery-"@ + pad3(id as nat) + ".json"@
}

pub open spec fn recovery_source_path_spec(id: u32) -> Seq<char> {
    "artifacts/recovery-"@ + pad3(id as nat) + ".source-run.json"@
}

/// `artifacts/recovery-NNN.json`: the decision record of recovery `id`.
pub fn recovery_path(id: u32) -> (r: String)
    ensures
        r@ == recovery_path_spec(id),
{
    let mut v = chars_of("artifacts/recovery-");
    append_chars(&mut v, &pad3_exec(id as u64));
    append_chars(&mut v, &chars_of(".json"));
    string_of(&v)
}

/// `artifacts/recovery-NNN.source-run.json`: the source run that recovery `id` staged.
pub fn recovery_source_path(id: u32) -> (r: String)
    ensures
        r@ == recovery_source_path_spec(id),
{
    let mut v = chars_of("artifacts/recovery-");
    append_chars(&mut v, &pad3_exec(id as u64));
    append_chars(&mut v, &chars_of(".source-run.json"));
    string_of(&v)
}

/// What a staged recovery does with the attempt it resumes.
#[derive(Debug, Clone, PartialEq, Eq)]
pub enum EvaluationRecoveryTransitionKind {
    AdoptionCreateMissing { report_path: String },
    AdoptionVerifyExisting,
    Invalidation,
}

/// Whether the recovery's decision record is already durable.
#[derive(Debug, Clone, Copy, PartialEq, Eq, Structural)]
pub enum DurableDecisionState {
    Missing,
    Verified,
}

/// Where an adoption that creates the missing EvalReport stands with that report.
#[derive(Debug, Clone, Copy, PartialEq, Eq, Structural)]
pub enum AdoptionReportState {
    NotApplicable,
    Missing,
    PresentUnauthenticated { bytes: u64 },
    Verified,
}

#[derive(Debug, Clone, PartialEq, Eq)]
pub enum EvaluationRecoveryTransition {
    Active {
        recovery_id: u32,
        kind: EvaluationRecoveryTransitionKind,
        decision: DurableDecisionState,
        report: AdoptionReportState,
    },
}

/// The storage that a transition still needs: the decision record unless durable, the
/// missing EvalReport (all of it, or what an unauthenticated partial one leaves), and the
/// final replacement of `run.json`.
pub open spec fn recovery_transition_spec(transition: EvaluationRecoveryTransition) -> Result<
    CommitmentView,
    Seq<char>,
> {
    let EvaluationRecoveryTransition::Active { recovery_id, kind, decision, report } = transition;
    let start = if decision == DurableDecisionState::Missing {
        add_slot_spec(empty_commitment_spec(), recovery_path_spec(recovery_id), EVALUATION_ARTIFACT_CAP)
    } else {
        Ok(empty_commitment_spec())
    };
    match start {
        Err(e) => Err(e),
        Ok(c) => {
            let with_report = match (kind, report) {
                (
                    EvaluationRecoveryTransitionKind::AdoptionCreateMissing { report_path },
                    AdoptionReportState::Missing,
                ) => add_slot_spec(c, report_path@, EVALUATION_ARTIFACT_CAP),
                (
                    EvaluationRecoveryTransitionKind::AdoptionCreateMissing { .. },
                    AdoptionReportState::PresentUnauthenticated { bytes },
                ) => if bytes > EVALUATION_ARTIFACT_CAP {
                    Err("adoption EvalReport exceeds its artifact limit"@)
                } else {
                    add_residual_spec(c, (EVALUATION_ARTIFACT_CAP - bytes) as u64)
                },
                (
                    EvaluationRecoveryTransitionKind::AdoptionCreateMissing { .. },
                    AdoptionReportState::Verified,
                ) => Ok(c),
                (
                    EvaluationRecoveryTransitionKind::AdoptionVerifyExisting,
                    AdoptionReportState::NotApplicable,
                ) => Ok(c),
                (
                    EvaluationRecoveryTransitionKind::Invalidation,
                    AdoptionReportState::NotApplicable,
                ) => Ok(c),
                _ => Err("evaluation recovery transition has an impossible report state"@),
            };
            match with_report {
                Err(e) => Err(e),
                Ok(c2) => Ok(with_run_replacement(c2)),
            }
        },
    }
}

pub fn recovery_transition_commitment(transition: EvaluationRecoveryTransition) -> (r: Result<
    StorageCommitment,
    String,
>)
    ensures
        match r {
            Ok(c) => recovery_transition_spec(transition) == Ok::<CommitmentView, Seq<char>>(c@),
            Err(m) => recovery_transition_spec(transition) == Err::<CommitmentView, Seq<char>>(m@),
        },
{
    let ghost t = transition;
    let EvaluationRecoveryTransition::Active { recovery_id, kind, decision, report } = transition;
    let mut commitment = empty_commitment();
    if decision == DurableDecisionState::Missing {
        add_slot(&mut commitment, recovery_path(recovery_id), EVALUATION_ARTIFACT_CAP)?;
    }
    match (kind, report) {
        (
            EvaluationRecoveryTransitionKind::AdoptionCreateMissing { report_path },
            AdoptionReportState::Missing,
        ) => add_slot(&mut commitment, report_path, EVALUATION_ARTIFACT_CAP)?,
        (
            EvaluationRecoveryTransitionKind::AdoptionCreateMissing { .. },
            AdoptionReportState::PresentUnauthenticated { bytes },
        ) => {
            let remaining = match EVALUATION_ARTIFACT_CAP.checked_sub(bytes) {
                Some(v) => v,
                None => {
                    return Err(string_of(&chars_of("adoption EvalReport exceeds its artifact limit")));
                },
            };
            add_residual(&mut commitment, remaining)?;
        },
        (
            EvaluationRecoveryTransitionKind::AdoptionCreateMissing { .. },
            AdoptionReportState::Verified,
        ) => {},
        (
            EvaluationRecoveryTransitionKind::AdoptionVerifyExisting,
            AdoptionReportState::NotApplicable,
        ) => {},
        (EvaluationRecoveryTransitionKind::Invalidation, AdoptionReportState::NotApplicable) => {},
        _ => {
            return Err(
                string_of(&chars_of("evaluation recovery transition has an impossible report state")),
            );
        },
    }
    set_run_replacement(&mut commitment);
    Ok(commitment)
}


/// The fixed and indexed paths of the attempt whose storage is committed.
#[derive(Debug, Clone, PartialEq, Eq)]
pub struct AttemptPathSet {
    pub testing: String,
    pub report: String,
    pub fixed: bool,
}

/// `(testing, report, fixed)` of the attempt that an intent path names.
pub open spec fn from_intent_spec(path: Seq<char>, attempt: u32) -> Result<
    (Seq<char>, Seq<char>, bool),
    Seq<char>,
> {
    if path == "artifacts/07-testing.execution-intent.json"@ && attempt == 1 {
        Ok(("artifacts/07-testing.json"@, "artifacts/08-eval-report.json"@, true))
    } else if attempt == 0 {
        Err("evaluation attempt must be positive"@)
    } else if indexed_intent_path(attempt) != path {
        Err("evaluation intent path is not canonical for its attempt"@)
    } else {
        Ok((indexed_testing_path(attempt), indexed_report_path(attempt), false))
    }
}

/// `(testing, report, fixed)` of an attempt in a recovery's recorded spelling.
pub open spec fn for_spelling_spec(attempt: u32, spelling: Spelling) -> Result<
    (Seq<char>, Seq<char>, bool),
    Seq<char>,
> {
    match spelling {
        Spelling::Fixed => if attempt == 1 {
            Ok(("artifacts/07-testing.json"@, "artifacts/08-eval-report.json"@, true))
        } else {
            Err("evaluation recovery prefix spelling is invalid"@)
        },
        Spelling::Indexed => if attempt == 0 {
            Err("evaluation attempt must be positive"@)
        } else {
            Ok((indexed_testing_path(attempt), indexed_report_path(attempt), false))
        },
    }
}

/// The path of a check's log in an attempt's spelling.
pub open spec fn stream_path(testing: Seq<char>, fixed: bool, check: nat, stream: Seq<char>) -> Seq<char> {
    if fixed {
        "artifacts/07-testing.check-"@ + pad3(check) + "."@ + stream + ".log"@
    } else {
        log_path(testing, check, stream)
    }
}

impl AttemptPathSet {
    pub open spec fn parts(&self) -> (Seq<char>, Seq<char>, bool) {
        (self.testing@, self.report@, self.fixed)
    }

    pub fn from_intent(path: &str, attempt: u32) -> (r: Result<Self, String>)
        ensures
            match r {
                Ok(p) => from_intent_spec(path@, attempt) == Ok::<(Seq<char>, Seq<char>, bool), Seq<char>>(
                    p.parts(),
                ),
                Err(m) => from_intent_spec(path@, attempt) == Err::<(Seq<char>, Seq<char>, bool), Seq<char>>(
                    m@,
                ),
            },
    {
        let p = chars_of(path);
        if seq_eq(&p, &chars_of("artifacts/07-testing.execution-intent.json")) && attempt == 1 {
            return Ok(AttemptPathSet {
                testing: string_of(&chars_of("artifacts/07-testing.json")),
                report: string_of(&chars_of("artifacts/08-eval-report.json")),
                fixed: true,
            });
        }
        let indexed = EvaluationAttemptPaths::indexed(attempt)?;
        if !seq_eq(&chars_of(indexed.intent.as_str()), &p) {
            return Err(string_of(&chars_of("evaluation intent path is not canonical for its attempt")));
        }
        Ok(AttemptPathSet { testing: indexed.testing, report: indexed.report, fixed: false })
    }

    pub fn for_spelling(attempt: u32, spelling: Spelling) -> (r: Result<Self, String>)
        ensures
            match r {
                Ok(p) => for_spelling_spec(attempt, spelling) == Ok::<(Seq<char>, Seq<char>, bool), Seq<char>>(
                    p.parts(),
                ),
                Err(m) => for_spelling_spec(attempt, spelling) == Err::<(Seq<char>, Seq<char>, bool), Seq<char>>(
                    m@,
                ),
            },
    {
        match spelling {
            Spelling::Fixed => if attempt == 1 {
                Ok(AttemptPathSet {
                    testing: string_of(&chars_of("artifacts/07-testing.json")),
                    report: string_of(&chars_of("artifacts/08-eval-report.json")),
                    fixed: true,
                })
            } else {
                Err(string_of(&chars_of("evaluation recovery prefix spelling is invalid")))
            },
            Spelling::Indexed => {
                let paths = EvaluationAttemptPaths::indexed(attempt)?;
                Ok(AttemptPathSet { testing: paths.testing, report: paths.report, fixed: false })
            },
        }
    }

    fn stream(&self, check: usize, stream: &str) -> (r: String)
        ensures
            r@ == stream_path(self.testing@, self.fixed, check as nat, stream@),
    {
        if self.fixed {
            let mut v = chars_of("artifacts/07-testing.check-");
            append_chars(&mut v, &pad3_exec(check as u64));
            append_chars(&mut v, &chars_of("."));
            append_chars(&mut v, &chars_of(stream));
            append_chars(&mut v, &chars_of(".log"));
            string_of(&v)
        } else {
            let mut to = chars_of(".check-");
            append_chars(&mut to, &pad3_exec(check as u64));
            append_chars(&mut to, &chars_of("."));
            append_chars(&mut to, &chars_of(stream));
            append_chars(&mut to, &chars_of(".log"));
            proof {
                reveal_strlit(".json");
            }
            string_of(&replace_all_exec(&chars_of(self.testing.as_str()), &chars_of(".json"), &to))
        }
    }

    /// The stdout log path of check number `check`.
    pub fn stdout(&self, check: usize) -> (r: String)
        ensures
            r@ == stream_path(self.testing@, self.fixed, check as nat, "stdout"@),
    {
        self.stream(check, "stdout")
    }

    /// The stderr log path of check number `check`.
    pub fn stderr(&self, check: usize) -> (r: String)
        ensures
            r@ == stream_path(self.testing@, self.fixed, check as nat, "stderr"@),
    {
        self.stream(check, "stderr")
    }
}


/// The published prefix of the attempt whose storage is committed: its intent, the
/// Testing evidence and EvalReport if published, and its logs, check 1 first.
pub struct EvaluationCommitmentPrefix {
    pub attempt: u32,
    pub intent: String,
    pub testing: Option<String>,
    pub report: Option<String>,
    pub logs: Vec<(Option<String>, Option<String>)>,
}

/// The published path of a check's stream, if any.
pub open spec fn published_log(prefix: EvaluationCommitmentPrefix, i: int, stderr: bool) -> Option<Seq<char>> {
    if 0 <= i < prefix.logs.len() {
        if stderr {
            opt_view(prefix.logs@[i].1)
        } else {
            opt_view(prefix.logs@[i].0)
        }
    } else {
        None
    }
}

pub open spec fn size_view(r: Result<u64, String>) -> Result<u64, Seq<char>> {
    match r {
        Ok(v) => Ok(v),
        Err(e) => Err(e@),
    }
}

/// The physical size of a published log, as measured for the check's stream.
pub open spec fn measured(sizes: Seq<(Result<u64, String>, Result<u64, String>)>, i: int, stderr: bool) -> Result<
    u64,
    Seq<char>,
> {
    if stderr {
        size_view(sizes[i].1)
    } else {
        size_view(sizes[i].0)
    }
}

/// One stream of one check: a canonical published log keeps only what its limit leaves
/// (unless Testing evidence already authenticates it), a missing one reserves its limit.
pub open spec fn stream_step(
    c: CommitmentView,
    published: Option<Seq<char>>,
    canonical: Seq<char>,
    limit: u64,
    testing_published: bool,
    size: Result<u64, Seq<char>>,
    label: Seq<char>,
) -> Result<CommitmentView, Seq<char>> {
    match published {
        Some(actual) => if actual == canonical {
            if testing_published {
                Ok(c)
            } else {
                match size {
                    Err(e) => Err(e),
                    Ok(bytes) => if bytes > limit {
                        Err("evaluation "@ + label + " exceeds its normalized limit"@)
                    } else {
                        add_residual_spec(c, (limit - bytes) as u64)
                    },
                }
            }
        } else {
            Err("evaluation "@ + label + " path is not canonical for its attempt"@)
        },
        None => add_slot_spec(c, canonical, limit),
    }
}

/// The log slots of checks `i` and on.
pub open spec fn log_slots_from(
    c: CommitmentView,
    paths: (Seq<char>, Seq<char>, bool),
    prefix: EvaluationCommitmentPrefix,
    checks: Seq<EvalCommandConfig>,
    sizes: Seq<(Result<u64, String>, Result<u64, String>)>,
    i: int,
) -> Result<CommitmentView, Seq<char>>
    decreases checks.len() - i,
{
    if i < 0 || i >= checks.len() {
        Ok(c)
    } else if i + 1 > u32::MAX {
        Err("evaluation check sequence is exhausted"@)
    } else {
        match output_limit_spec(checks[i].max_output_bytes) {
            None => Err(check_message(checks[i].name@, " max_output_bytes must be between 1 and 1048576"@)),
            Some(limit) => {
                let testing_published = prefix.testing is Some;
                match stream_step(
                    c,
                    published_log(prefix, i, false),
                    stream_path(paths.0, paths.2, (i + 1) as nat, "stdout"@),
                    limit as u64,
                    testing_published,
                    measured(sizes, i, false),
                    "stdout"@,
                ) {
                    Err(e) => Err(e),
                    Ok(c1) => match stream_step(
                        c1,
                        published_log(prefix, i, true),
                        stream_path(paths.0, paths.2, (i + 1) as nat, "stderr"@),
                        limit as u64,
                        testing_published,
                        measured(sizes, i, true),
                        "stderr"@,
                    ) {
                        Err(e) => Err(e),
                        Ok(c2) => log_slots_from(c2, paths, prefix, checks, sizes, i + 1),
                    },
                }
            },
        }
    }
}

pub open spec fn is_log_slot(path: Seq<char>) -> bool {
    ends_with(path, ".stdout.log"@) || ends_with(path, ".stderr.log"@)
}

pub open spec fn reserves_log(c: CommitmentView) -> bool {
    exists|j: int| 0 <= j < c.paths.len() && is_log_slot(#[trigger] c.paths[j].0)
}

/// After the logs: Testing evidence, the EvalReport, the recovery's source and decision
/// records, and the replacement of `run.json`.
pub open spec fn final_slots(
    c: CommitmentView,
    paths: (Seq<char>, Seq<char>, bool),
    prefix: EvaluationCommitmentPrefix,
    latest_recovery: Option<u32>,
) -> Result<CommitmentView, Seq<char>> {
    if prefix.testing is Some && reserves_log(c) {
        Err("Testing evidence cannot precede complete evaluation logs"@)
    } else {
        let after_testing = match opt_view(prefix.testing) {
            Some(actual) => if actual == paths.0 {
                Ok(c)
            } else {
                Err("Testing evidence path is not canonical for its attempt"@)
            },
            None => add_slot_spec(c, paths.0, EVALUATION_ARTIFACT_CAP),
        };
        match after_testing {
            Err(e) => Err(e),
            Ok(c1) => {
                let after_report = match opt_view(prefix.report) {
                    Some(actual) => if prefix.testing is None {
                        Err("EvalReport cannot precede Testing evidence"@)
                    } else if actual == paths.1 {
                        Ok(c1)
                    } else {
                        Err("EvalReport path is not canonical for its attempt"@)
                    },
                    None => add_slot_spec(c1, paths.1, EVALUATION_ARTIFACT_CAP),
                };
                match after_report {
                    Err(e) => Err(e),
                    Ok(c2) => match next_recovery_id_spec(latest_recovery) {
                        Err(e) => Err(e),
                        Ok(id) => match add_slot_spec(c2, recovery_source_path_spec(id), EVALUATION_ARTIFACT_CAP) {
                            Err(e) => Err(e),
                            Ok(c3) => match add_slot_spec(c3, recovery_path_spec(id), EVALUATION_ARTIFACT_CAP) {
                                Err(e) => Err(e),
                                Ok(c4) => Ok(with_run_replacement(c4)),
                            },
                        },
                    },
                }
            },
        }
    }
}

/// The storage that an attempt whose prefix is published still needs to finish and be
/// recovered: every unpublished log at its check's output limit, what the limit leaves of
/// each published log until Testing evidence authenticates them, the artifacts after
/// them, and the next recovery's records.
pub open spec fn normal_prefix_spec(
    latest_recovery: Option<u32>,
    prefix: EvaluationCommitmentPrefix,
    checks: Seq<EvalCommandConfig>,
    sizes: Seq<(Result<u64, String>, Result<u64, String>)>,
) -> Result<CommitmentView, Seq<char>> {
    match from_intent_spec(prefix.intent@, prefix.attempt) {
        Err(e) => Err(e),
        Ok(paths) => if prefix.logs.len() > checks.len() {
            Err("evaluation commitment prefix has surplus check logs"@)
        } else {
            match log_slots_from(empty_commitment_spec(), paths, prefix, checks, sizes, 0) {
                Err(e) => Err(e),
                Ok(c) => final_slots(c, paths, prefix, latest_recovery),
            }
        },
    }
}

fn stream_step_exec(
    commitment: &mut StorageCommitment,
    published: &Option<String>,
    canonical: String,
    limit: u64,
    testing_published: bool,
    size: &Result<u64, String>,
    label: &str,
) -> (r: Result<(), String>)
    ensures
        match r {
            Ok(()) => stream_step(old(commitment)@, opt_view(*published), canonical@, limit, testing_published, size_view(*size), label@)
                == Ok::<CommitmentView, Seq<char>>(final(commitment)@),
            Err(m) => stream_step(old(commitment)@, opt_view(*published), canonical@, limit, testing_published, size_view(*size), label@)
                == Err::<CommitmentView, Seq<char>>(m@),
        },
{
    match published {
        Some(actual) => {
            if seq_eq(&chars_of(actual.as_str()), &chars_of(canonical.as_str())) {
                if testing_published {
                    return Ok(());
                }
                let bytes = match size {
                    Ok(b) => *b,
                    Err(e) => {
                        return Err(e.clone());
                    },
                };
                if bytes > limit {
                    let mut m = chars_of("evaluation ");
                    append_chars(&mut m, &chars_of(label));
                    append_chars(&mut m, &chars_of(" exceeds its normalized limit"));
                    return Err(string_of(&m));
                }
                add_residual(commitment, limit - bytes)
            } else {
                let mut m = chars_of("evaluation ");
                append_chars(&mut m, &chars_of(label));
                append_chars(&mut m, &chars_of(" path is not canonical for its attempt"));
                Err(string_of(&m))
            }
        },
        None => add_slot(commitment, canonical, limit),
    }
}

fn reserves_log_exec(c: &StorageCommitment) -> (r: bool)
    ensures
        r == reserves_log(c@),
{
    let out = chars_of(".stdout.log");
    let err = chars_of(".stderr.log");
    let mut j: usize = 0;
    while j < c.consumable_permanent_paths.len()
        invariant
            j <= c.consumable_permanent_paths.len(),
            out@ == ".stdout.log"@,
            err@ == ".stderr.log"@,
            forall|k: int| 0 <= k < j ==> !is_log_slot(#[trigger] c@.paths[k].0),
        decreases c.consumable_permanent_paths.len() - j,
    {
        let p = chars_of(c.consumable_permanent_paths[j].0.as_str());
        assert(c@.paths[j as int].0 == p@);
        if has_suffix(&p, &out) || has_suffix(&p, &err) {
            assert(is_log_slot(c@.paths[j as int].0));
            return true;
        }
        j = j + 1;
    }
    false
}

/// The storage commitment of an attempt whose prefix is published; `log_sizes[i]` holds
/// the measured size of check `i + 1`'s stdout and stderr logs where published.
pub fn normal_prefix_commitment(
    latest_recovery: Option<u32>,
    prefix: &EvaluationCommitmentPrefix,
    checks: &Vec<EvalCommandConfig>,
    log_sizes: &Vec<(Result<u64, String>, Result<u64, String>)>,
) -> (r: Result<StorageCommitment, String>)
    requires
        log_sizes.len() == prefix.logs.len(),
    ensures
        match r {
            Ok(c) => normal_prefix_spec(latest_recovery, *prefix, checks@, log_sizes@) == Ok::<
                CommitmentView,
                Seq<char>,
            >(c@),
            Err(m) => normal_prefix_spec(latest_recovery, *prefix, checks@, log_sizes@) == Err::<
                CommitmentView,
                Seq<char>,
            >(m@),
        },
{
    let paths = AttemptPathSet::from_intent(prefix.intent.as_str(), prefix.attempt)?;
    let ghost pv = paths.parts();
    if prefix.logs.len() > checks.len() {
        return Err(string_of(&chars_of("evaluation commitment prefix has surplus check logs")));
    }
    let mut commitment = empty_commitment();
    let testing_published = prefix.testing.is_some();
    let mut i: usize = 0;
    while i < checks.len()
        invariant
            i <= checks.len(),
            log_sizes.len() == prefix.logs.len() <= checks.len(),
            pv == paths.parts(),
            from_intent_spec(prefix.intent@, prefix.attempt) == Ok::<(Seq<char>, Seq<char>, bool), Seq<char>>(pv),
            testing_published == prefix.testing is Some,
            log_slots_from(empty_commitment_spec(), pv, *prefix, checks@, log_sizes@, 0) == log_slots_from(
                commitment@,
                pv,
                *prefix,
                checks@,
                log_sizes@,
                i as int,
            ),
        decreases checks.len() - i,
    {
        if i >= 4294967295 {
            return Err(string_of(&chars_of("evaluation check sequence is exhausted")));
        }
        let limit = match normalize_eval_output_limit(checks[i].name.as_str(), checks[i].max_output_bytes) {
            Ok(l) => l as u64,
            Err(e) => {
                return Err(e.to_string());
            },
        };
        let none: Option<String> = None;
        let no_size: Result<u64, String> = Ok(0);
        let (published_out, published_err, size_out, size_err) = if i < prefix.logs.len() {
            (&prefix.logs[i].0, &prefix.logs[i].1, &log_sizes[i].0, &log_sizes[i].1)
        } else {
            (&none, &none, &no_size, &no_size)
        };
        stream_step_exec(
            &mut commitment,
            published_out,
            paths.stdout(i + 1),
            limit,
            testing_published,
            size_out,
            "stdout",
        )?;
        stream_step_exec(
            &mut commitment,
            published_err,
            paths.stderr(i + 1),
            limit,
            testing_published,
            size_err,
            "stderr",
        )?;
        i = i + 1;
    }
    if testing_published && reserves_log_exec(&commitment) {
        return Err(string_of(&chars_of("Testing evidence cannot precede complete evaluation logs")));
    }
    match &prefix.testing {
        Some(actual) => {
            if !seq_eq(&chars_of(actual.as_str()), &chars_of(paths.testing.as_str())) {
                return Err(string_of(&chars_of("Testing evidence path is not canonical for its attempt")));
            }
        },
        None => add_slot(&mut commitment, paths.testing.clone(), EVALUATION_ARTIFACT_CAP)?,
    }
    match &prefix.report {
        Some(actual) => {
            if !testing_published {
                return Err(string_of(&chars_of("EvalReport cannot precede Testing evidence")));
            }
            if !seq_eq(&chars_of(actual.as_str()), &chars_of(paths.report.as_str())) {
                return Err(string_of(&chars_of("EvalReport path is not canonical for its attempt")));
            }
        },
        None => add_slot(&mut commitment, paths.report.clone(), EVALUATION_ARTIFACT_CAP)?,
    }
    let recovery_id = next_recovery_id(latest_recovery)?;
    add_slot(&mut commitment, recovery_source_path(recovery_id), EVALUATION_ARTIFACT_CAP)?;
    add_slot(&mut commitment, recovery_path(recovery_id), EVALUATION_ARTIFACT_CAP)?;
    set_run_replacement(&mut commitment);
    Ok(commitment)
}


/// The attempt that a fresh evaluation must target: the one after the latest attempt of
/// the inventory, or 1.
pub open spec fn fresh_target_spec(latest: Option<u32>) -> Result<u32, Seq<char>> {
    match latest {
        None => Ok(1),
        Some(l) => if l == u32::MAX {
            Err("evaluation attempt sequence is exhausted"@)
        } else {
            Ok((l + 1) as u32)
        },
    }
}

/// What a fresh evaluation must satisfy before its storage is committed: exact Approved
/// authority, an unoccupied target that is the exact next attempt, and an intent that
/// matches that authority (`intent_check`).
pub open spec fn fresh_checks_spec(
    approved: bool,
    occupied: bool,
    latest: Option<u32>,
    attempt: u32,
    intent_check: Result<(), String>,
) -> Result<(), Seq<char>> {
    if !approved {
        Err("fresh evaluation commitment requires exact Approved authority"@)
    } else if occupied {
        Err("fresh evaluation commitment target attempt is already occupied"@)
    } else {
        match fresh_target_spec(latest) {
            Err(e) => Err(e),
            Ok(expected) => if attempt != expected {
                Err("fresh evaluation commitment target is not the exact next attempt"@)
            } else {
                match intent_check {
                    Err(e) => Err(e@),
                    Ok(_) => Ok(()),
                }
            },
        }
    }
}

/// A prefix of an attempt that has published nothing but its intent.
pub open spec fn is_fresh_prefix(p: EvaluationCommitmentPrefix, attempt: u32, intent_path: Seq<char>) -> bool {
    &&& p.attempt == attempt
    &&& p.intent@ == intent_path
    &&& p.testing is None
    &&& p.report is None
    &&& p.logs@.len() == 0
}

/// The storage commitment of a fresh evaluation attempt: the checks above, then the
/// commitment of a prefix that holds only the intent at `intent_path`.
pub fn derive_fresh_evaluation_storage_commitment(
    approved: bool,
    occupied: bool,
    latest: Option<u32>,
    attempt: u32,
    intent_path: &str,
    intent_check: &Result<(), String>,
    latest_recovery: Option<u32>,
    checks: &Vec<EvalCommandConfig>,
) -> (r: Result<StorageCommitment, String>)
    ensures
        match fresh_checks_spec(approved, occupied, latest, attempt, *intent_check) {
            Err(e) => r matches Err(m) && m@ == e,
            Ok(_) => exists|p: EvaluationCommitmentPrefix|
                is_fresh_prefix(p, attempt, intent_path@) && match r {
                    Ok(c) => normal_prefix_spec(latest_recovery, p, checks@, seq![]) == Ok::<
                        CommitmentView,
                        Seq<char>,
                    >(c@),
                    Err(m) => normal_prefix_spec(latest_recovery, p, checks@, seq![]) == Err::<
                        CommitmentView,
                        Seq<char>,
                    >(m@),
                },
        },
{
    if !approved {
        return Err(string_of(&chars_of("fresh evaluation commitment requires exact Approved authority")));
    }
    if occupied {
        return Err(string_of(&chars_of("fresh evaluation commitment target attempt is already occupied")));
    }
    let expected = match latest {
        None => 1,
        Some(l) => {
            if l == u32::MAX {
                return Err(string_of(&chars_of("evaluation attempt sequence is exhausted")));
            }
            l + 1
        },
    };
    if attempt != expected {
        return Err(string_of(&chars_of("fresh evaluation commitment target is not the exact next attempt")));
    }
    match intent_check {
        Err(e) => {
            return Err(e.clone());
        },
        Ok(_) => {},
    }
    let prefix = EvaluationCommitmentPrefix {
        attempt,
        intent: string_of(&chars_of(intent_path)),
        testing: None,
        report: None,
        logs: Vec::new(),
    };
    let sizes: Vec<(Result<u64, String>, Result<u64, String>)> = Vec::new();
    let r = normal_prefix_commitment(latest_recovery, &prefix, checks, &sizes);
    assert(sizes@ =~= Seq::<(Result<u64, String>, Result<u64, String>)>::empty());
    assert(is_fresh_prefix(prefix, attempt, intent_path@));
    r
}

/// What the staged invalidation source of a recovery says of itself, as parsed: its
/// schema version, its recovery id, and whether the run it holds is exactly the current
/// run.
pub struct InvalidationSourceSummary {
    pub schema_version: u64,
    pub recovery_id: u32,
    pub binds_current_run: bool,
}

/// The commitment that activating an invalidation source reserves: the recovery record
/// and the final replacement of `run.json`.
pub open spec fn activation_commitment_spec(recovery_id: u32) -> CommitmentView {
    with_run_replacement(
        add_slot_spec(empty_commitment_spec(), recovery_path_spec(recovery_id), EVALUATION_ARTIFACT_CAP)->Ok_0,
    )
}

/// The storage commitment of activating the invalidation source at `source_path` for
/// recovery `recovery_id`; `source` is what parsing its canonical bytes gave, and the
/// source must bind exactly the current authority.
pub fn derive_invalidation_source_activation_commitment(
    recovery_id: u32,
    source_path: &str,
    expected_schema_version: u64,
    source: &Result<InvalidationSourceSummary, String>,
) -> (r: Result<StorageCommitment, String>)
    ensures
        match source {
            Err(e) => r matches Err(m) && m@ == e@,
            Ok(s) => if s.schema_version == expected_schema_version && s.recovery_id == recovery_id
                && source_path@ == recovery_source_path_spec(recovery_id) && s.binds_current_run {
                r matches Ok(c) && c@ == activation_commitment_spec(recovery_id)
            } else {
                r matches Err(m) && m@ == "evaluation invalidation source does not bind exact current authority"@
            },
        },
{
    let summary = match source {
        Err(e) => {
            return Err(e.clone());
        },
        Ok(s) => s,
    };
    let expected_path = recovery_source_path(recovery_id);
    if summary.schema_version != expected_schema_version || summary.recovery_id != recovery_id || !seq_eq(
        &chars_of(source_path),
        &chars_of(expected_path.as_str()),
    ) || !summary.binds_current_run {
        return Err(string_of(&chars_of("evaluation invalidation source does not bind exact current authority")));
    }
    let mut commitment = empty_commitment();
    let added = add_slot(&mut commitment, recovery_path(recovery_id), EVALUATION_ARTIFACT_CAP);
    assert(added is Ok);
    set_run_replacement(&mut commitment);
    Ok(commitment)
}

/// The state of the EvalReport that an adoption must create, from what is found at its
/// path (its size, or none) and whether its bytes match the report that the durable
/// decision records.
pub open spec fn adoption_report_state_spec(
    report_path: Seq<char>,
    size: Option<u64>,
    decision_report: Option<(Seq<char>, Seq<char>)>,
    report_bytes: Option<Seq<u8>>,
) -> AdoptionReportState {
    match size {
        None => AdoptionReportState::Missing,
        Some(bytes) => {
            let authenticated = match (decision_report, report_bytes) {
                (Some((path, digest)), Some(b)) => path == report_path && digest_hex_spec(b) == digest,
                _ => false,
            };
            if authenticated {
                AdoptionReportState::Verified
            } else {
                AdoptionReportState::PresentUnauthenticated { bytes }
            }
        },
    }
}

/// Classifies the EvalReport that an adoption must create: missing, verified against the
/// durable decision's reference (path and digest), or present without that authority.
/// `report_bytes` are the bytes read at the path where they could be read.
pub fn adoption_report_state(
    report_path: &str,
    size: Option<u64>,
    decision_report: &Option<(String, String)>,
    report_bytes: &Option<Vec<u8>>,
) -> (r: AdoptionReportState)
    ensures
        r == adoption_report_state_spec(
            report_path@,
            size,
            match decision_report {
                Some((p, d)) => Some((p@, d@)),
                None => None,
            },
            match report_bytes {
                Some(b) => Some(b@),
                None => None,
            },
        ),
{
    match size {
        None => AdoptionReportState::Missing,
        Some(bytes) => {
            let authenticated = match (decision_report, report_bytes) {
                (Some((path, digest)), Some(b)) => seq_eq(&chars_of(path.as_str()), &chars_of(report_path))
                    && seq_eq(&chars_of(digest_hex(b.as_slice()).as_str()), &chars_of(digest.as_str())),
                _ => false,
            };
            if authenticated {
                AdoptionReportState::Verified
            } else {
                AdoptionReportState::PresentUnauthenticated { bytes }
            }
        },
    }
}

/// The log paths and digests that a completed check recorded.
pub struct CompletedCheckLogs {
    pub stdout_path: Option<String>,
    pub stdout_digest: Option<String>,
    pub stderr_path: Option<String>,
    pub stderr_digest: Option<String>,
}

pub open spec fn read_view(r: Result<Vec<u8>, String>) -> Result<Seq<u8>, Seq<char>> {
    match r {
        Ok(b) => Ok(b@),
        Err(e) => Err(e@),
    }
}

/// One published log of a completed check against what the check recorded: the same
/// path, and bytes (as read there) whose digest is the recorded one.
pub open spec fn pre_spawn_stream(
    published: Option<Seq<char>>,
    expected_path: Option<Seq<char>>,
    expected_digest: Option<Seq<char>>,
    read: Result<Seq<u8>, Seq<char>>,
    label: Seq<char>,
) -> Result<(), Seq<char>> {
    match (published, expected_path, expected_digest) {
        (Some(p), Some(q), Some(d)) => if p != q {
            Err("completed evaluation "@ + label + " path was substituted"@)
        } else {
            match read {
                Err(e) => Err(e),
                Ok(b) => if digest_hex_spec(b) != d {
                    Err("completed evaluation "@ + label + " bytes were substituted"@)
                } else {
                    Ok(())
                },
            }
        },
        _ => Err("completed evaluation "@ + label + " lost durable authority"@),
    }
}

/// The completed checks from the `i`-th on, each log against its check's record.
pub open spec fn pre_spawn_logs(
    prefix: EvaluationCommitmentPrefix,
    completed: Seq<CompletedCheckLogs>,
    reads: Seq<(Result<Vec<u8>, String>, Result<Vec<u8>, String>)>,
    i: int,
) -> Result<(), Seq<char>>
    decreases completed.len() - i,
{
    if i < 0 || i >= completed.len() {
        Ok(())
    } else if i >= u32::MAX {
        Err("evaluation check sequence is exhausted"@)
    } else {
        let c = completed[i];
        match pre_spawn_stream(
            published_log(prefix, i, false),
            opt_view(c.stdout_path),
            opt_view(c.stdout_digest),
            read_view(reads[i].0),
            "stdout"@,
        ) {
            Err(e) => Err(e),
            Ok(_) => match pre_spawn_stream(
                published_log(prefix, i, true),
                opt_view(c.stderr_path),
                opt_view(c.stderr_digest),
                read_view(reads[i].1),
                "stderr"@,
            ) {
                Err(e) => Err(e),
                Ok(_) => pre_spawn_logs(prefix, completed, reads, i + 1),
            },
        }
    }
}

/// Whether the published prefix of an attempt about to spawn its next check holds exactly
/// the logs of the checks it completed, unsubstituted.
pub open spec fn pre_spawn_spec(
    prefix: Result<Option<EvaluationCommitmentPrefix>, String>,
    attempt: u32,
    completed: Seq<CompletedCheckLogs>,
    reads: Seq<(Result<Vec<u8>, String>, Result<Vec<u8>, String>)>,
) -> Result<(), Seq<char>> {
    match prefix {
        Err(e) => Err(e@),
        Ok(None) => Err("pre-spawn evaluation prefix lost execution intent"@),
        Ok(Some(p)) => if p.attempt != attempt || p.testing is Some || p.report is Some || p.logs@.len()
            != completed.len() {
            Err("pre-spawn evaluation prefix has unauthenticated or surplus artifacts"@)
        } else {
            pre_spawn_logs(p, completed, reads, 0)
        },
    }
}

fn pre_spawn_stream_exec(
    published: &Option<String>,
    expected_path: &Option<String>,
    expected_digest: &Option<String>,
    read: &Result<Vec<u8>, String>,
    label: &str,
) -> (r: Result<(), String>)
    ensures
        match pre_spawn_stream(
            opt_view(*published),
            opt_view(*expected_path),
            opt_view(*expected_digest),
            read_view(*read),
            label@,
        ) {
            Ok(_) => r is Ok,
            Err(e) => r matches Err(m) && m@ == e,
        },
{
    match (published, expected_path, expected_digest) {
        (Some(p), Some(q), Some(d)) => {
            if !seq_eq(&chars_of(p.as_str()), &chars_of(q.as_str())) {
                let mut m = chars_of("completed evaluation ");
                append_chars(&mut m, &chars_of(label));
                append_chars(&mut m, &chars_of(" path was substituted"));
                return Err(string_of(&m));
            }
            match read {
                Err(e) => Err(e.clone()),
                Ok(b) => {
                    if !seq_eq(&chars_of(digest_hex(b.as_slice()).as_str()), &chars_of(d.as_str())) {
                        let mut m = chars_of("completed evaluation ");
                        append_chars(&mut m, &chars_of(label));
                        append_chars(&mut m, &chars_of(" bytes were substituted"));
                        Err(string_of(&m))
                    } else {
                        Ok(())
                    }
                },
            }
        },
        _ => {
            let mut m = chars_of("completed evaluation ");
            append_chars(&mut m, &chars_of(label));
            append_chars(&mut m, &chars_of(" lost durable authority"));
            Err(string_of(&m))
        },
    }
}

/// Checks, before the next check of `attempt` spawns, that the latest published prefix
/// (`prefix`, as the inventory gave it) belongs to that attempt, holds no Testing evidence
/// or EvalReport, and holds exactly the logs of the `completed` checks, each at the path
/// its check recorded and with the digest it recorded; `reads[i]` are the bytes read at
/// check `i + 1`'s stdout and stderr logs.
pub fn validate_pre_spawn_evaluation_prefix(
    prefix: &Result<Option<EvaluationCommitmentPrefix>, String>,
    attempt: u32,
    completed: &Vec<CompletedCheckLogs>,
    reads: &Vec<(Result<Vec<u8>, String>, Result<Vec<u8>, String>)>,
) -> (r: Result<(), String>)
    requires
        reads.len() == completed.len(),
    ensures
        match pre_spawn_spec(*prefix, attempt, completed@, reads@) {
            Ok(_) => r is Ok,
            Err(e) => r matches Err(m) && m@ == e,
        },
{
    let p = match prefix {
        Err(e) => {
            return Err(e.clone());
        },
        Ok(None) => {
            return Err(string_of(&chars_of("pre-spawn evaluation prefix lost execution intent")));
        },
        Ok(Some(p)) => p,
    };
    if p.attempt != attempt || p.testing.is_some() || p.report.is_some() || p.logs.len() != completed.len() {
        return Err(string_of(&chars_of("pre-spawn evaluation prefix has unauthenticated or surplus artifacts")));
    }
    let mut i: usize = 0;
    while i < completed.len()
        invariant
            i <= completed.len() == reads.len() == p.logs.len(),
            *prefix == Ok::<Option<EvaluationCommitmentPrefix>, String>(Some(*p)),
            pre_spawn_spec(*prefix, attempt, completed@, reads@) == pre_spawn_logs(*p, completed@, reads@, i as int),
        decreases completed.len() - i,
    {
        if i >= 4294967295 {
            return Err(string_of(&chars_of("evaluation check sequence is exhausted")));
        }
        let c = &completed[i];
        pre_spawn_stream_exec(&p.logs[i].0, &c.stdout_path, &c.stdout_digest, &reads[i].0, "stdout")?;
        pre_spawn_stream_exec(&p.logs[i].1, &c.stderr_path, &c.stderr_digest, &reads[i].1, "stderr")?;
        i = i + 1;
    }
    Ok(())
}

/// The bytes reserved by the consumable slots.
pub open spec fn slot_total(paths: Seq<(Seq<char>, u64)>) -> nat
    decreases paths.len(),
{
    if paths.len() == 0 {
        0
    } else {
        slot_total(paths.drop_last()) + paths.last().1 as nat
    }
}

/// Every reserved permanent entry has its consumable path, and the permanent bytes cover
/// every slot (and the residuals of partly written artifacts).
pub open spec fn accounted(c: CommitmentView) -> bool {
    c.permanent_entries == c.paths.len() && slot_total(c.paths) <= c.permanent_bytes
}

proof fn lemma_add_slot_accounted(c: CommitmentView, path: Seq<char>, bytes: u64)
    requires
        accounted(c),
        add_slot_spec(c, path, bytes) is Ok,
    ensures
        accounted(add_slot_spec(c, path, bytes)->Ok_0),
{
    let n = add_slot_spec(c, path, bytes)->Ok_0;
    assert(n.paths.drop_last() =~= c.paths);
}

proof fn lemma_log_slots_accounted(
    c: CommitmentView,
    paths: (Seq<char>, Seq<char>, bool),
    prefix: EvaluationCommitmentPrefix,
    checks: Seq<EvalCommandConfig>,
    sizes: Seq<(Result<u64, String>, Result<u64, String>)>,
    i: int,
)
    requires
        accounted(c),
        log_slots_from(c, paths, prefix, checks, sizes, i) is Ok,
    ensures
        accounted(log_slots_from(c, paths, prefix, checks, sizes, i)->Ok_0),
    decreases checks.len() - i,
{
    if 0 <= i < checks.len() && i + 1 <= u32::MAX {
        let limit = output_limit_spec(checks[i].max_output_bytes)->0;
        let t = prefix.testing is Some;
        let stdout = stream_path(paths.0, paths.2, (i + 1) as nat, "stdout"@);
        let stderr = stream_path(paths.0, paths.2, (i + 1) as nat, "stderr"@);
        let r1 = stream_step(c, published_log(prefix, i, false), stdout, limit as u64, t, measured(sizes, i, false), "stdout"@);
        if published_log(prefix, i, false) is None {
            lemma_add_slot_accounted(c, stdout, limit as u64);
        }
        let c1 = r1->Ok_0;
        let r2 = stream_step(c1, published_log(prefix, i, true), stderr, limit as u64, t, measured(sizes, i, true), "stderr"@);
        if published_log(prefix, i, true) is None {
            lemma_add_slot_accounted(c1, stderr, limit as u64);
        }
        lemma_log_slots_accounted(r2->Ok_0, paths, prefix, checks, sizes, i + 1);
    }
}

/// Every commitment the library derives accounts for its slots: one permanent entry per
/// consumable path, at least their bytes reserved, and the one `run.json` replacement.
pub proof fn lemma_commitments_account_for_their_slots(
    transition: EvaluationRecoveryTransition,
    latest_recovery: Option<u32>,
    prefix: EvaluationCommitmentPrefix,
    checks: Seq<EvalCommandConfig>,
    sizes: Seq<(Result<u64, String>, Result<u64, String>)>,
)
    ensures
        recovery_transition_spec(transition) is Ok ==> accounted(recovery_transition_spec(transition)->Ok_0)
            && recovery_transition_spec(transition)->Ok_0.transient_entries == 1
            && recovery_transition_spec(transition)->Ok_0.transient_path == Some("run.json"@),
        normal_prefix_spec(latest_recovery, prefix, checks, sizes) is Ok ==> accounted(
            normal_prefix_spec(latest_recovery, prefix, checks, sizes)->Ok_0,
        ) && normal_prefix_spec(latest_recovery, prefix, checks, sizes)->Ok_0.transient_entries == 1
            && normal_prefix_spec(latest_recovery, prefix, checks, sizes)->Ok_0.transient_path == Some(
            "run.json"@,
        ),
{
    let e = empty_commitment_spec();
    assert(accounted(e));
    if recovery_transition_spec(transition) is Ok {
        let EvaluationRecoveryTransition::Active { recovery_id, kind, decision, report } = transition;
        let start = if decision == DurableDecisionState::Missing {
            add_slot_spec(e, recovery_path_spec(recovery_id), EVALUATION_ARTIFACT_CAP)
        } else {
            Ok(e)
        };
        if decision == DurableDecisionState::Missing {
            lemma_add_slot_accounted(e, recovery_path_spec(recovery_id), EVALUATION_ARTIFACT_CAP);
        }
        let c = start->Ok_0;
        match (kind, report) {
            (
                EvaluationRecoveryTransitionKind::AdoptionCreateMissing { report_path },
                AdoptionReportState::Missing,
            ) => {
                lemma_add_slot_accounted(c, report_path@, EVALUATION_ARTIFACT_CAP);
            },
            _ => {},
        }
    }
    if normal_prefix_spec(latest_recovery, prefix, checks, sizes) is Ok {
        let paths = from_intent_spec(prefix.intent@, prefix.attempt)->Ok_0;
        lemma_log_slots_accounted(e, paths, prefix, checks, sizes, 0);
        let c = log_slots_from(e, paths, prefix, checks, sizes, 0)->Ok_0;
        let after_testing = match opt_view(prefix.testing) {
            Some(actual) => Ok(c),
            None => add_slot_spec(c, paths.0, EVALUATION_ARTIFACT_CAP),
        };
        if prefix.testing is None {
            lemma_add_slot_accounted(c, paths.0, EVALUATION_ARTIFACT_CAP);
        }
        let c1 = after_testing->Ok_0;
        let after_report = match opt_view(prefix.report) {
            Some(actual) => Ok(c1),
            None => add_slot_spec(c1, paths.1, EVALUATION_ARTIFACT_CAP),
        };
        if prefix.report is None {
            lemma_add_slot_accounted(c1, paths.1, EVALUATION_ARTIFACT_CAP);
        }
        let c2 = after_report->Ok_0;
        let id = next_recovery_id_spec(latest_recovery)->Ok_0;
        lemma_add_slot_accounted(c2, recovery_source_path_spec(id), EVALUATION_ARTIFACT_CAP);
        let c3 = add_slot_spec(c2, recovery_source_path_spec(id), EVALUATION_ARTIFACT_CAP)->Ok_0;
        lemma_add_slot_accounted(c3, recovery_path_spec(id), EVALUATION_ARTIFACT_CAP);
    }
}

} // verus!
