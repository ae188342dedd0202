//! The whole inspection of a loop run, assembled from the inspections of its inputs,
//! candidate, provider attempts, steps and evaluation prefix: integrity, bounds, and the
//! first messages of each kind.
use vstd::prelude::*;

use crate::inspect::{
    inspection_bounds, inspection_integrity, kept_messages, EvaluationPrefixInspection, InputDigestInspection,
    InspectionBounds, InspectionIntegrity, ArtifactHistoryInspection, MAX_INSPECTION_MESSAGES,
};
use crate::final_evaluation_authority::final_status_spec;
use crate::inspect_run::CandidateInspection;
use crate::provider_attempts::{ProviderAttemptInspection, ProviderAttemptsInventory};
use crate::text::{chars_of, seq_eq};

verus! {

/// One step of the run as inspection reports it.
#[derive(Debug, Clone, PartialEq, Eq)]
pub struct StepInspection {
    pub name: String,
    pub status: String,
    pub artifact_path: Option<String>,
    pub artifact_digest: Option<String>,
    pub artifact_history: Vec<ArtifactHistoryInspection>,
}

/// The inspection of a loop run.
#[derive(Debug, Clone, PartialEq, Eq)]
pub struct LoopInspection {
    pub command: String,
    pub run_id: String,
    pub status: String,
    pub current_step: String,
    pub run_digest: String,
    pub run_directory: String,
    pub run_file: String,
    pub integrity: InspectionIntegrity,
    pub bounds: InspectionBounds,
    pub input_digests: Vec<(String, InputDigestInspection)>,
    pub candidate: Option<CandidateInspection>,
    pub steps: Vec<StepInspection>,
    pub provider_attempts: Vec<ProviderAttemptInspection>,
    pub provider_ledger_head: Option<String>,
    pub evaluation_prefix: Vec<EvaluationPrefixInspection>,
    pub integrity_messages: Vec<String>,
    pub ambiguity_messages: Vec<String>,
}

/// What the inspections of a run's parts found, before the report is bounded.
pub struct LoopInspectionParts {
    pub run_id: String,
    pub status: String,
    pub current_step: String,
    pub run_digest: String,
    pub run_directory: String,
    pub run_file: String,
    pub input_digests: Vec<(String, InputDigestInspection)>,
    pub candidate: Option<CandidateInspection>,
    pub provider: ProviderAttemptsInventory,
    pub provider_ledger_head: Option<String>,
    pub steps: Vec<StepInspection>,
    pub artifact_history_total: usize,
    pub evaluation_prefix: Vec<EvaluationPrefixInspection>,
    pub evaluation_prefix_total: usize,
    pub integrity_messages: Vec<String>,
    pub ambiguity_messages: Vec<String>,
}

/// Whether a run carries final evaluation authority that inspection must verify: it
/// passed evaluation, was promoted, or failed after human approval was recorded.
pub open spec fn final_authority_required_spec(status: Seq<char>, approved: bool) -> bool {
    approved && (status == "EvalPassed"@ || status == "Promoted"@ || status == "Failed"@)
}

pub fn final_authority_required(status: &str, approved: bool) -> (r: bool)
    ensures
        r == final_authority_required_spec(status@, approved),
{
    let s = chars_of(status);
    approved && (seq_eq(&s, &chars_of("EvalPassed")) || seq_eq(&s, &chars_of("Promoted")) || seq_eq(
        &s,
        &chars_of("Failed"),
    ))
}

/// The exchanges that the kept provider attempts hold.
pub open spec fn retained_exchanges(attempts: Seq<ProviderAttemptInspection>) -> nat
    decreases attempts.len(),
{
    if attempts.len() == 0 {
        0
    } else {
        retained_exchanges(attempts.drop_last()) + attempts.last().exchanges@.len()
    }
}

/// The artifact history entries that the steps hold.
pub open spec fn retained_history(steps: Seq<StepInspection>) -> nat
    decreases steps.len(),
{
    if steps.len() == 0 {
        0
    } else {
        retained_history(steps.drop_last()) + steps.last().artifact_history@.len()
    }
}

proof fn lemma_exchanges_monotone(attempts: Seq<ProviderAttemptInspection>, i: int)
    requires
        0 <= i <= attempts.len(),
    ensures
        retained_exchanges(attempts.take(i)) <= retained_exchanges(attempts),
    decreases attempts.len() - i,
{
    if i < attempts.len() {
        lemma_exchanges_monotone(attempts, i + 1);
        assert(attempts.take(i + 1).drop_last() =~= attempts.take(i));
    } else {
        assert(attempts.take(i) =~= attempts);
    }
}

proof fn lemma_history_monotone(steps: Seq<StepInspection>, i: int)
    requires
        0 <= i <= steps.len(),
    ensures
        retained_history(steps.take(i)) <= retained_history(steps),
    decreases steps.len() - i,
{
    if i < steps.len() {
        lemma_history_monotone(steps, i + 1);
        assert(steps.take(i + 1).drop_last() =~= steps.take(i));
    } else {
        assert(steps.take(i) =~= steps);
    }
}

fn count_exchanges(attempts: &Vec<ProviderAttemptInspection>) -> (r: usize)
    requires
        retained_exchanges(attempts@) <= usize::MAX,
    ensures
        r == retained_exchanges(attempts@),
{
    let mut n: usize = 0;
    let mut i: usize = 0;
    while i < attempts.len()
        invariant
            i <= attempts.len(),
            retained_exchanges(attempts@) <= usize::MAX,
            n == retained_exchanges(attempts@.take(i as int)),
        decreases attempts.len() - i,
    {
        proof {
            assert(attempts@.take(i + 1).drop_last() =~= attempts@.take(i as int));
            lemma_exchanges_monotone(attempts@, i + 1);
        }
        n = n + attempts[i].exchanges.len();
        i = i + 1;
    }
    assert(attempts@.take(attempts.len() as int) =~= attempts@);
    n
}

fn count_history(steps: &Vec<StepInspection>) -> (r: usize)
    requires
        retained_history(steps@) <= usize::MAX,
    ensures
        r == retained_history(steps@),
{
    let mut n: usize = 0;
    let mut i: usize = 0;
    while i < steps.len()
        invariant
            i <= steps.len(),
            retained_history(steps@) <= usize::MAX,
            n == retained_history(steps@.take(i as int)),
        decreases steps.len() - i,
    {
        proof {
            assert(steps@.take(i + 1).drop_last() =~= steps@.take(i as int));
            lemma_history_monotone(steps@, i + 1);
        }
        n = n + steps[i].artifact_history.len();
        i = i + 1;
    }
    assert(steps@.take(steps.len() as int) =~= steps@);
    n
}

fn first_messages(messages: Vec<String>) -> (r: Vec<String>)
    ensures
        r@ == messages@.take(kept_messages(messages.len()) as int),
{
    let keep = if messages.len() < MAX_INSPECTION_MESSAGES {
        messages.len()
    } else {
        MAX_INSPECTION_MESSAGES
    };
    let mut rest = messages;
    let ghost all = rest@;
    rest.truncate(keep);
    assert(rest@ =~= all.take(keep as int));
    rest
}

/// The inspection of a run from the inspections of its parts: the integrity is verified
/// exactly when no integrity or ambiguity message was found; the bounds count every
/// total found and what the report keeps; each message list keeps its first 64; the
/// rest of the parts pass through unchanged.
pub fn assemble_loop_inspection(parts: LoopInspectionParts) -> (r: LoopInspection)
    requires
        parts.provider.attempts@.len() <= parts.provider.attempts_total,
        retained_exchanges(parts.provider.attempts@) <= parts.provider.exchanges_total,
        retained_history(parts.steps@) <= usize::MAX,
        parts.evaluation_prefix@.len() <= parts.evaluation_prefix_total,
    ensures
        r.command@ == "inspect"@,
        r.run_id == parts.run_id,
        r.status == parts.status,
        r.current_step == parts.current_step,
        r.run_digest == parts.run_digest,
        r.run_directory == parts.run_directory,
        r.run_file == parts.run_file,
        r.integrity == (if parts.integrity_messages@.len() == 0 && parts.ambiguity_messages@.len() == 0 {
            InspectionIntegrity::Verified
        } else {
            InspectionIntegrity::Degraded
        }),
        r.bounds.provider_attempts_total == parts.provider.attempts_total,
        r.bounds.provider_attempts_truncated == parts.provider.attempts_total - parts.provider.attempts@.len(),
        r.bounds.provider_exchanges_total == parts.provider.exchanges_total,
        r.bounds.provider_exchanges_truncated == parts.provider.exchanges_total - retained_exchanges(
            parts.provider.attempts@,
        ),
        r.bounds.artifact_history_total == (if parts.artifact_history_total < retained_history(parts.steps@) {
            retained_history(parts.steps@)
        } else {
            parts.artifact_history_total as nat
        }),
        r.bounds.artifact_history_truncated == r.bounds.artifact_history_total - retained_history(parts.steps@),
        r.bounds.evaluation_prefix_total == parts.evaluation_prefix_total,
        r.bounds.evaluation_prefix_truncated == parts.evaluation_prefix_total - parts.evaluation_prefix@.len(),
        r.bounds.integrity_messages_total == parts.integrity_messages@.len(),
        r.bounds.integrity_messages_truncated == parts.integrity_messages@.len() - kept_messages(
            parts.integrity_messages@.len() as usize,
        ),
        r.bounds.ambiguity_messages_total == parts.ambiguity_messages@.len(),
        r.bounds.ambiguity_messages_truncated == parts.ambiguity_messages@.len() - kept_messages(
            parts.ambiguity_messages@.len() as usize,
        ),
        r.input_digests == parts.input_digests,
        r.candidate == parts.candidate,
        r.steps == parts.steps,
        r.provider_attempts == parts.provider.attempts,
        r.provider_ledger_head == parts.provider_ledger_head,
        r.evaluation_prefix == parts.evaluation_prefix,
        r.integrity_messages@ == parts.integrity_messages@.take(kept_messages(parts.integrity_messages@.len() as usize) as int),
        r.ambiguity_messages@ == parts.ambiguity_messages@.take(kept_messages(parts.ambiguity_messages@.len() as usize) as int),
{
    let exchanges = count_exchanges(&parts.provider.attempts);
    let history = count_history(&parts.steps);
    let integrity_total = parts.integrity_messages.len();
    let ambiguity_total = parts.ambiguity_messages.len();
    let bounds = inspection_bounds(
        parts.provider.attempts_total,
        parts.provider.attempts.len(),
        parts.provider.exchanges_total,
        exchanges,
        parts.artifact_history_total,
        history,
        parts.evaluation_prefix_total,
        parts.evaluation_prefix.len(),
        integrity_total,
        ambiguity_total,
    );
    let integrity = inspection_integrity(integrity_total, ambiguity_total);
    let LoopInspectionParts {
        run_id,
        status,
        current_step,
        run_digest,
        run_directory,
        run_file,
        input_digests,
        candidate,
        provider,
        provider_ledger_head,
        steps,
        artifact_history_total: _,
        evaluation_prefix,
        evaluation_prefix_total: _,
        integrity_messages,
        ambiguity_messages,
    } = parts;
    LoopInspection {
        command: crate::text::string_of(&chars_of("inspect")),
        run_id,
        status,
        current_step,
        run_digest,
        run_directory,
        run_file,
        integrity,
        bounds,
        input_digests,
        candidate,
        steps,
        provider_attempts: provider.attempts,
        provider_ledger_head,
        evaluation_prefix,
        integrity_messages: first_messages(integrity_messages),
        ambiguity_messages: first_messages(ambiguity_messages),
    }
}

/// Inspection verifies final evaluation authority for an approved run exactly when its
/// status is EvalPassed, Promoted or Failed, and never for a run without human approval;
/// these are exactly the approved runs whose status final authority accepts as final.
pub proof fn lemma_final_authority_required_statuses(status: Seq<char>, approved: bool)
    ensures
        final_authority_required_spec(status, true) <==> (status == "EvalPassed"@ || status == "Promoted"@
            || status == "Failed"@),
        !final_authority_required_spec(status, false),
        final_authority_required_spec(status, approved) <==> (approved && final_status_spec(status, approved) is Some),
{
}

} // verus!
