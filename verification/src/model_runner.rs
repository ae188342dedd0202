//! Provider step bookkeeping: which request keys are structural, how many context
//! retries a run may ask for, and the byte cap of a provider audit.
use vstd::prelude::*;

use crate::text::{chars_of, contains_seq, contains_seq_exec, string_of};

verus! {

pub open spec fn ascii_lower(c: char) -> char {
    if 'A' <= c && c <= 'Z' {
        ((c as u32) + 32) as char
    } else {
        c
    }
}

pub open spec fn lower(s: Seq<char>) -> Seq<char> {
    s.map_values(|c: char| ascii_lower(c))
}

/// The key fragments that make a request field structural rather than free text.
pub open spec fn structural_fragments() -> Seq<Seq<char>> {
    seq!["id"@, "path"@, "digest"@, "sha"@, "authority"@, "role"@, "step"@]
}

/// A request key that holds, in any ASCII case, one of the structural fragments.
pub open spec fn is_structural_request_key_spec(key: Seq<char>) -> bool {
    exists|i: int| 0 <= i < 7 && contains_seq(lower(key), #[trigger] structural_fragments()[i])
}

fn lower_exec(s: &Vec<char>) -> (r: Vec<char>)
    ensures
        r@ == lower(s@),
{
    let mut r: Vec<char> = Vec::new();
    let mut i: usize = 0;
    while i < s.len()
        invariant
            i <= s.len(),
            r@ == lower(s@.take(i as int)),
        decreases s.len() - i,
    {
        let c = s[i];
        let l = if 'A' <= c && c <= 'Z' {
            ((c as u8) + 32) as char
        } else {
            c
        };
        r.push(l);
        assert(lower(s@.take(i + 1)) =~= lower(s@.take(i as int)).push(ascii_lower(c)));
        i = i + 1;
    }
    assert(s@.take(s.len() as int) =~= s@);
    r
}

pub fn is_structural_request_key(key: &str) -> (r: bool)
    ensures
        r == is_structural_request_key_spec(key@),
{
    let k = lower_exec(&chars_of(key));
    let fragments: [&str; 7] = ["id", "path", "digest", "sha", "authority", "role", "step"];
    let mut i: usize = 0;
    while i < 7
        invariant
            i <= 7,
            k@ == lower(key@),
            forall|j: int| 0 <= j < 7 ==> (#[trigger] fragments@[j])@ == structural_fragments()[j],
            forall|j: int| 0 <= j < i ==> !contains_seq(k@, #[trigger] structural_fragments()[j]),
        decreases 7 - i,
    {
        if contains_seq_exec(&k, &chars_of(fragments[i])) {
            assert(contains_seq(k@, structural_fragments()[i as int]));
            return true;
        }
        i = i + 1;
    }
    false
}

/// What the context cap reads of one provider exchange record.
pub struct ExchangeRecordSummary {
    pub request_phase: bool,
    pub context_retry: bool,
    pub step: u32,
}

pub open spec fn is_accepted_retry(r: ExchangeRecordSummary) -> bool {
    r.request_phase && r.context_retry
}

/// The number of context-retry requests among the records, of any step or of `step`.
pub open spec fn retry_count(records: Seq<ExchangeRecordSummary>, step: Option<u32>) -> nat
    decreases records.len(),
{
    if records.len() == 0 {
        0
    } else {
        let r = records.last();
        retry_count(records.drop_last(), step) + if is_accepted_retry(r) && (step is None
            || step == Some(r.step)) {
            1nat
        } else {
            0nat
        }
    }
}

/// A run may ask for eight context retries in all, and two per step.
pub fn records_context_cap_reached(records: &[ExchangeRecordSummary], step: u32) -> (r: bool)
    ensures
        r == (retry_count(records@, None) >= 8 || retry_count(records@, Some(step)) >= 2),
{
    let mut all: usize = 0;
    let mut here: usize = 0;
    let mut i: usize = 0;
    while i < records.len()
        invariant
            i <= records.len(),
            all == retry_count(records@.take(i as int), None),
            here == retry_count(records@.take(i as int), Some(step)),
            here <= all <= i,
        decreases records.len() - i,
    {
        assert(records@.take(i + 1).drop_last() =~= records@.take(i as int));
        assert(records@.take(i + 1).last() == records@[i as int]);
        if records[i].request_phase && records[i].context_retry {
            all = all + 1;
            if records[i].step == step {
                here = here + 1;
            }
        }
        i = i + 1;
    }
    assert(records@.take(records.len() as int) =~= records@);
    all >= 8 || here >= 2
}

/// Counts the bytes written of a provider audit and refuses the write that would pass
/// its cap.
pub struct CappedJsonCounter {
    pub count: usize,
    pub cap: usize,
    pub exceeded: bool,
}

impl CappedJsonCounter {
    pub fn new(cap: usize) -> (r: Self)
        ensures
            r.count == 0,
            r.cap == cap,
            !r.exceeded,
    {
        CappedJsonCounter { count: 0, cap, exceeded: false }
    }

    /// Accounts for `len` more bytes: accepted while the total stays within the cap;
    /// otherwise the counter is marked exceeded and the write refused.
    pub fn write(&mut self, len: usize) -> (r: Result<usize, String>)
        ensures
            old(self).count + len <= old(self).cap ==> r == Ok::<usize, String>(len) && final(self).count
                == old(self).count + len && final(self).exceeded == old(self).exceeded,
            old(self).count + len > usize::MAX ==> r is Err && r->Err_0@
                == "provider audit length overflowed"@ && final(self).exceeded && final(self).count
                == old(self).count,
            old(self).count + len <= usize::MAX && old(self).count + len > old(self).cap ==> r is Err
                && r->Err_0@ == "provider audit exceeds its durable byte cap"@ && final(self).exceeded
                && final(self).count == old(self).count,
            final(self).cap == old(self).cap,
    {
        let next = match self.count.checked_add(len) {
            Some(n) => n,
            None => {
                self.exceeded = true;
                return Err(string_of(&chars_of("provider audit length overflowed")));
            },
        };
        if next > self.cap {
            self.exceeded = true;
            return Err(string_of(&chars_of("provider audit exceeds its durable byte cap")));
        }
        self.count = next;
        Ok(len)
    }
}


/// The steps of a loop, in order.
#[derive(Debug, Clone, Copy, PartialEq, Eq, Structural)]
pub enum LoopStep {
    Research,
    Analysis,
    SpecCreation,
    SpecReview,
    Development,
    OutputReview,
    Testing,
    EvalReport,
}

/// The roles that providers play.
#[derive(Debug, Clone, Copy, PartialEq, Eq, Structural)]
pub enum Role {
    Researcher,
    Analyzer,
    SpecWriter,
    SpecReviewer,
    Developer,
    OutputReviewer,
}

/// The role that runs a step; the evaluation steps have none.
pub open spec fn role_for_step_spec(step: LoopStep) -> Option<Role> {
    match step {
        LoopStep::Research => Some(Role::Researcher),
        LoopStep::Analysis => Some(Role::Analyzer),
        LoopStep::SpecCreation => Some(Role::SpecWriter),
        LoopStep::SpecReview => Some(Role::SpecReviewer),
        LoopStep::Development => Some(Role::Developer),
        LoopStep::OutputReview => Some(Role::OutputReviewer),
        LoopStep::Testing | LoopStep::EvalReport => None,
    }
}

pub fn role_for_step(step: LoopStep) -> (r: Option<Role>)
    ensures
        r == role_for_step_spec(step),
{
    match step {
        LoopStep::Research => Some(Role::Researcher),
        LoopStep::Analysis => Some(Role::Analyzer),
        LoopStep::SpecCreation => Some(Role::SpecWriter),
        LoopStep::SpecReview => Some(Role::SpecReviewer),
        LoopStep::Development => Some(Role::Developer),
        LoopStep::OutputReview => Some(Role::OutputReviewer),
        LoopStep::Testing | LoopStep::EvalReport => None,
    }
}

/// The steps before development, whose role artifacts later prompts carry.
pub fn is_early_role_step(step: LoopStep) -> (r: bool)
    ensures
        r == (step == LoopStep::Research || step == LoopStep::Analysis || step == LoopStep::SpecCreation || step
            == LoopStep::SpecReview),
{
    match step {
        LoopStep::Research | LoopStep::Analysis | LoopStep::SpecCreation | LoopStep::SpecReview => true,
        _ => false,
    }
}

/// What a role's response says of its step.
#[derive(Debug, Clone, Copy, PartialEq, Eq, Structural)]
pub enum ResponseOutcome {
    AgentPassed,
    AgentBlocked,
    AgentNeedsContext,
    PatchProposed,
    DeveloperBlocked,
    DeveloperNeedsContext,
    ApproveSpec,
    ApproveForTests,
    RequestChanges,
    Reject,
}

/// The status a step takes from its role's response.
#[derive(Debug, Clone, Copy, PartialEq, Eq, Structural)]
pub enum StepOutcomeStatus {
    Completed,
    Passed,
    Blocked,
    Failed,
}

pub open spec fn status_for_response_spec(outcome: ResponseOutcome) -> StepOutcomeStatus {
    match outcome {
        ResponseOutcome::AgentPassed | ResponseOutcome::PatchProposed => StepOutcomeStatus::Completed,
        ResponseOutcome::ApproveSpec | ResponseOutcome::ApproveForTests => StepOutcomeStatus::Passed,
        ResponseOutcome::Reject => StepOutcomeStatus::Failed,
        _ => StepOutcomeStatus::Blocked,
    }
}

/// A passed agent or a proposed patch completes its step, an approving decision passes
/// it, a rejecting one fails it, and everything else blocks it.
pub fn status_for_response(outcome: ResponseOutcome) -> (r: StepOutcomeStatus)
    ensures
        r == status_for_response_spec(outcome),
{
    match outcome {
        ResponseOutcome::AgentPassed => StepOutcomeStatus::Completed,
        ResponseOutcome::AgentBlocked | ResponseOutcome::AgentNeedsContext => StepOutcomeStatus::Blocked,
        ResponseOutcome::PatchProposed => StepOutcomeStatus::Completed,
        ResponseOutcome::DeveloperBlocked | ResponseOutcome::DeveloperNeedsContext => StepOutcomeStatus::Blocked,
        ResponseOutcome::ApproveSpec | ResponseOutcome::ApproveForTests => StepOutcomeStatus::Passed,
        ResponseOutcome::RequestChanges => StepOutcomeStatus::Blocked,
        ResponseOutcome::Reject => StepOutcomeStatus::Failed,
    }
}

} // verus!
