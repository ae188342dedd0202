//! Refusals of final evaluation authority.
use vstd::prelude::*;

use crate::eval_report::EvalDecision;
use crate::evaluation_attempt::Spelling;
use crate::text::{append_chars, chars_of, seq_eq, string_of};

verus! {

/// Why final evaluation authority was refused.
#[derive(Debug, Clone, PartialEq, Eq)]
pub struct FinalEvaluationAuthorityError {
    pub message: String,
}

impl FinalEvaluationAuthorityError {
    pub fn invalid(message: String) -> (r: Self)
        ensures
            r.message@ == message@,
    {
        FinalEvaluationAuthorityError { message }
    }

    /// The message, as the error displays.
    pub fn to_string(&self) -> (r: String)
        ensures
            r@ == self.message@,
    {
        self.message.clone()
    }
}

/// `field: message` pairs joined by `; `.
pub open spec fn field_errors_text(errors: Seq<(String, String)>) -> Seq<char>
    decreases errors.len(),
{
    if errors.len() == 0 {
        seq![]
    } else if errors.len() == 1 {
        errors[0].0@ + ": "@ + errors[0].1@
    } else {
        field_errors_text(errors.drop_last()) + "; "@ + errors.last().0@ + ": "@ + errors.last().1@
    }
}

pub fn format_field_errors(errors: &[(String, String)]) -> (r: String)
    ensures
        r@ == field_errors_text(errors@),
{
    let mut out: Vec<char> = Vec::new();
    let mut i: usize = 0;
    while i < errors.len()
        invariant
            i <= errors.len(),
            out@ == field_errors_text(errors@.take(i as int)),
        decreases errors.len() - i,
    {
        assert(errors@.take(i + 1).drop_last() =~= errors@.take(i as int));
        assert(errors@.take(i + 1).last() == errors@[i as int]);
        let ghost before = out@;
        if i > 0 {
            append_chars(&mut out, &chars_of("; "));
        } else {
            assert(errors@.take(1)[0] == errors@[0]);
        }
        append_chars(&mut out, &chars_of(errors[i].0.as_str()));
        append_chars(&mut out, &chars_of(": "));
        append_chars(&mut out, &chars_of(errors[i].1.as_str()));
        if i > 0 {
            assert(out@ =~= before + "; "@ + errors@[i as int].0@ + ": "@ + errors@[i as int].1@);
        } else {
            assert(out@ =~= errors@[0].0@ + ": "@ + errors@[0].1@);
        }
        i = i + 1;
    }
    assert(errors@.take(errors.len() as int) =~= errors@);
    string_of(&out)
}

/// Refuses authority loaded from a directory whose name is not the run's ID, where the
/// caller requires the selected directory.
pub fn require_run_directory(
    directory_name: Option<&str>,
    run_id: &str,
    require_selected_directory_name: bool,
) -> (r: Result<(), FinalEvaluationAuthorityError>)
    ensures
        r is Ok <==> !require_selected_directory_name || (directory_name is Some
            && directory_name->0@ == run_id@),
        r is Err ==> r->Err_0.message@
            == "final LoopRun run_id does not match the authoritative run directory"@,
{
    if require_selected_directory_name {
        let matches = match directory_name {
            Some(name) => crate::text::seq_eq(&chars_of(name), &chars_of(run_id)),
            None => false,
        };
        if !matches {
            return Err(
                FinalEvaluationAuthorityError::invalid(
                    string_of(
                        &chars_of("final LoopRun run_id does not match the authoritative run directory"),
                    ),
                ),
            );
        }
    }
    Ok(())
}

/// `"invalid final LoopRun: " + field errors`.
pub fn invalid_final_run(errors: &[(String, String)]) -> (r: FinalEvaluationAuthorityError)
    ensures
        r.message@ == "invalid final LoopRun: "@ + field_errors_text(errors@),
{
    let mut m = chars_of("invalid final LoopRun: ");
    append_chars(&mut m, &chars_of(format_field_errors(errors).as_str()));
    FinalEvaluationAuthorityError::invalid(string_of(&m))
}


/// Whether a run's status makes it final evaluation authority, and whether it records a
/// pass: EvalPassed and Promoted pass, Failed with a human approval fails, and any other
/// status (named as the status displays) is refused.
pub open spec fn final_status_spec(status: Seq<char>, human_approval: bool) -> Option<bool> {
    if status == "EvalPassed"@ || status == "Promoted"@ {
        Some(true)
    } else if status == "Failed"@ && human_approval {
        Some(false)
    } else {
        None
    }
}

pub fn final_status_passed(status: &str, human_approval: bool) -> (r: Result<bool, FinalEvaluationAuthorityError>)
    ensures
        match final_status_spec(status@, human_approval) {
            Some(p) => r == Ok::<bool, FinalEvaluationAuthorityError>(p),
            None => r matches Err(e) && e.message@ == "LoopRun is not final integrated evaluation authority"@,
        },
{
    let sc = chars_of(status);
    if seq_eq(&sc, &chars_of("EvalPassed")) || seq_eq(&sc, &chars_of("Promoted")) {
        Ok(true)
    } else if seq_eq(&sc, &chars_of("Failed")) && human_approval {
        Ok(false)
    } else {
        Err(FinalEvaluationAuthorityError::invalid(string_of(&chars_of("LoopRun is not final integrated evaluation authority"))))
    }
}

/// Testing evidence matches the selected attempt's path spelling: schema 1 without an
/// attempt under the fixed spelling, or schema 2 naming the selected attempt under the
/// indexed one.
pub open spec fn testing_schema_matches_spec(
    schema_version: u32,
    evaluation_attempt: Option<u32>,
    spelling: Spelling,
    selected: u32,
) -> bool {
    ||| schema_version == 1 && evaluation_attempt is None && spelling == Spelling::Fixed
    ||| schema_version == 2 && evaluation_attempt == Some(selected) && spelling == Spelling::Indexed
}

pub fn require_testing_schema(
    schema_version: u32,
    evaluation_attempt: Option<u32>,
    spelling: Spelling,
    selected: u32,
) -> (r: Result<(), FinalEvaluationAuthorityError>)
    ensures
        r is Ok <==> testing_schema_matches_spec(schema_version, evaluation_attempt, spelling, selected),
        r matches Err(e) ==> e.message@ == "Testing evidence schema does not match selected evaluation attempt path"@,
{
    let fixed = spelling == Spelling::Fixed;
    let matches = match (schema_version, evaluation_attempt, fixed) {
        (1, None, true) => true,
        (2, Some(attempt), false) => attempt == selected,
        _ => false,
    };
    if matches {
        Ok(())
    } else {
        Err(
            FinalEvaluationAuthorityError::invalid(
                string_of(&chars_of("Testing evidence schema does not match selected evaluation attempt path")),
            ),
        )
    }
}

/// The outcome that final authority must carry: Testing evidence and the EvalReport agree
/// with the run's status, a pass is not rejected, and a failure is.
pub open spec fn final_aggregate_spec(passed: bool, testing_passed: bool, report_passed: bool, decision: EvalDecision) -> Result<
    (),
    Seq<char>,
> {
    if testing_passed != passed || report_passed != passed {
        Err("Testing evidence and EvalReport aggregate do not match final LoopRun status"@)
    } else if passed && decision == EvalDecision::Reject {
        Err("passing final authority cannot use a rejecting EvalReport"@)
    } else if !passed && decision != EvalDecision::Reject {
        Err("reported evaluation failure requires a rejecting EvalReport"@)
    } else {
        Ok(())
    }
}

pub fn check_final_aggregate(
    passed: bool,
    testing_passed: bool,
    report_passed: bool,
    decision: EvalDecision,
) -> (r: Result<(), FinalEvaluationAuthorityError>)
    ensures
        match final_aggregate_spec(passed, testing_passed, report_passed, decision) {
            Ok(_) => r is Ok,
            Err(m) => r matches Err(e) && e.message@ == m,
        },
{
    if testing_passed != passed || report_passed != passed {
        return Err(
            FinalEvaluationAuthorityError::invalid(
                string_of(&chars_of("Testing evidence and EvalReport aggregate do not match final LoopRun status")),
            ),
        );
    }
    let rejecting = match decision {
        EvalDecision::Reject => true,
        _ => false,
    };
    if passed && rejecting {
        return Err(
            FinalEvaluationAuthorityError::invalid(
                string_of(&chars_of("passing final authority cannot use a rejecting EvalReport")),
            ),
        );
    }
    if !passed && !rejecting {
        return Err(
            FinalEvaluationAuthorityError::invalid(
                string_of(&chars_of("reported evaluation failure requires a rejecting EvalReport")),
            ),
        );
    }
    Ok(())
}

/// An artifact reference: its path and its digest.
#[derive(Debug, Clone, PartialEq, Eq)]
pub struct ReferenceFacts {
    pub path: String,
    pub digest: String,
}

/// The integrated loop evidence that a final EvalReport carries.
#[derive(Debug, Clone, PartialEq, Eq)]
pub struct LoopEvidenceFacts {
    pub run_id: String,
    pub ticket_id: String,
    pub ticket_digest: String,
    pub eval_config: ReferenceFacts,
    pub candidate_diff: ReferenceFacts,
    pub starting_head: String,
    pub human_approval_digest: String,
    pub policy_decision_digest: String,
    pub testing_evidence: ReferenceFacts,
}

/// The human approval that a final run records, with its canonical digest.
#[derive(Debug, Clone, PartialEq, Eq)]
pub struct ApprovalFacts {
    pub candidate_diff: ReferenceFacts,
    pub starting_head: String,
    pub policy_decision_digest: String,
    pub canonical_digest: String,
}

/// What final evaluation authority compares once the run, its Testing evidence, its
/// execution intent and its EvalReport have been loaded. Checks are compared by their
/// canonical encodings.
#[derive(Debug, Clone, PartialEq, Eq)]
pub struct FinalAuthorityFacts {
    pub passed: bool,
    pub run_id: String,
    pub goal_id: String,
    pub ticket_id: String,
    pub ticket_digest: String,
    pub eval_config_digest: Option<String>,
    pub approval: Option<ApprovalFacts>,
    pub evaluation_attempt: u32,
    pub intent_attempt: u32,
    pub testing_reference: ReferenceFacts,
    pub testing_passed: bool,
    pub testing_checks: Vec<Vec<u8>>,
    pub report_patch_id: String,
    pub report_goal_id: String,
    pub report_passed: bool,
    pub report_decision: EvalDecision,
    pub report_checks: Vec<Vec<u8>>,
    pub loop_evidence: Option<LoopEvidenceFacts>,
}

pub open spec fn same_reference(a: ReferenceFacts, b: ReferenceFacts) -> bool {
    a.path@ == b.path@ && a.digest@ == b.digest@
}

/// The EvalReport's integrated bindings name this run, its ticket, its eval config, its
/// approval and its Testing evidence.
pub open spec fn bindings_match(
    f: FinalAuthorityFacts,
    e: LoopEvidenceFacts,
    a: ApprovalFacts,
    eval_config_digest: Seq<char>,
) -> bool {
    &&& f.report_patch_id@ == f.run_id@
    &&& f.report_goal_id@ == f.goal_id@
    &&& e.run_id@ == f.run_id@
    &&& e.ticket_id@ == f.ticket_id@
    &&& e.ticket_digest@ == f.ticket_digest@
    &&& e.eval_config.path@ == "inputs/eval-config.json"@
    &&& e.eval_config.digest@ == eval_config_digest
    &&& same_reference(e.candidate_diff, a.candidate_diff)
    &&& e.starting_head@ == a.starting_head@
    &&& e.human_approval_digest@ == a.canonical_digest@
    &&& e.policy_decision_digest@ == a.policy_decision_digest@
    &&& same_reference(e.testing_evidence, f.testing_reference)
}

pub open spec fn byte_strings(v: Seq<Vec<u8>>) -> Seq<Seq<u8>> {
    v.map_values(|x: Vec<u8>| x@)
}

/// The comparisons of final authority, in order, with their refusals.
pub open spec fn final_authority_spec(f: FinalAuthorityFacts) -> Result<(), Seq<char>> {
    if f.intent_attempt != f.evaluation_attempt {
        Err("Testing evidence selects a cross-attempt execution intent"@)
    } else if f.loop_evidence is None {
        Err("final EvalReport requires integrated loop evidence"@)
    } else if f.approval is None {
        Err("final evaluation authority lost human approval evidence"@)
    } else if f.eval_config_digest is None {
        Err("final evaluation authority lost eval config digest"@)
    } else if !bindings_match(f, f.loop_evidence->0, f.approval->0, f.eval_config_digest->0@) {
        Err("EvalReport integrated bindings do not match the final LoopRun authority"@)
    } else if byte_strings(f.report_checks@) != byte_strings(f.testing_checks@) {
        Err("EvalReport checks do not exactly match ordered Testing evidence checks"@)
    } else {
        final_aggregate_spec(f.passed, f.testing_passed, f.report_passed, f.report_decision)
    }
}

fn same_text(a: &String, b: &String) -> (r: bool)
    ensures
        r == (a@ == b@),
{
    seq_eq(&chars_of(a.as_str()), &chars_of(b.as_str()))
}

fn same_ref(a: &ReferenceFacts, b: &ReferenceFacts) -> (r: bool)
    ensures
        r == same_reference(*a, *b),
{
    same_text(&a.path, &b.path) && same_text(&a.digest, &b.digest)
}

fn same_byte_strings(a: &Vec<Vec<u8>>, b: &Vec<Vec<u8>>) -> (r: bool)
    ensures
        r == (byte_strings(a@) == byte_strings(b@)),
{
    if a.len() != b.len() {
        assert(byte_strings(a@).len() != byte_strings(b@).len());
        return false;
    }
    let mut i: usize = 0;
    while i < a.len()
        invariant
            a.len() == b.len(),
            i <= a.len(),
            forall|j: int| 0 <= j < i ==> a@[j]@ == b@[j]@,
        decreases a.len() - i,
    {
        let x = &a[i];
        let y = &b[i];
        if x.len() != y.len() {
            assert(byte_strings(a@)[i as int].len() != byte_strings(b@)[i as int].len());
            return false;
        }
        let mut k: usize = 0;
        while k < x.len()
            invariant
                x.len() == y.len(),
                k <= x.len(),
                i < a.len(),
                a.len() == b.len(),
                x@ == a@[i as int]@,
                y@ == b@[i as int]@,
                forall|j: int| 0 <= j < k ==> x@[j] == y@[j],
            decreases x.len() - k,
        {
            if x[k] != y[k] {
                assert(byte_strings(a@)[i as int][k as int] != byte_strings(b@)[i as int][k as int]);
                return false;
            }
            k = k + 1;
        }
        assert(x@ =~= y@);
        i = i + 1;
    }
    assert(byte_strings(a@) =~= byte_strings(b@));
    true
}

fn refuse(message: &str) -> (r: Result<(), FinalEvaluationAuthorityError>)
    ensures
        r matches Err(e) && e.message@ == message@,
{
    Err(FinalEvaluationAuthorityError::invalid(string_of(&chars_of(message))))
}

/// Final evaluation authority over its loaded facts: the intent is of the selected
/// attempt, the report carries integrated evidence bound to this run, its approval, its
/// eval config and its Testing evidence, its checks are the Testing checks in order, and
/// the aggregate agrees with the run's status.
pub fn verify_final_evaluation_authority(f: &FinalAuthorityFacts) -> (r: Result<(), FinalEvaluationAuthorityError>)
    ensures
        match final_authority_spec(*f) {
            Ok(_) => r is Ok,
            Err(m) => r matches Err(e) && e.message@ == m,
        },
{
    if f.intent_attempt != f.evaluation_attempt {
        return refuse("Testing evidence selects a cross-attempt execution intent");
    }
    let e = match &f.loop_evidence {
        Some(e) => e,
        None => {
            return refuse("final EvalReport requires integrated loop evidence");
        },
    };
    let a = match &f.approval {
        Some(a) => a,
        None => {
            return refuse("final evaluation authority lost human approval evidence");
        },
    };
    let config_digest = match &f.eval_config_digest {
        Some(d) => d,
        None => {
            return refuse("final evaluation authority lost eval config digest");
        },
    };
    let bound = same_text(&f.report_patch_id, &f.run_id) && same_text(&f.report_goal_id, &f.goal_id)
        && same_text(&e.run_id, &f.run_id) && same_text(&e.ticket_id, &f.ticket_id) && same_text(
        &e.ticket_digest,
        &f.ticket_digest,
    ) && seq_eq(&chars_of(e.eval_config.path.as_str()), &chars_of("inputs/eval-config.json")) && same_text(
        &e.eval_config.digest,
        config_digest,
    ) && same_ref(&e.candidate_diff, &a.candidate_diff) && same_text(&e.starting_head, &a.starting_head)
        && same_text(&e.human_approval_digest, &a.canonical_digest) && same_text(
        &e.policy_decision_digest,
        &a.policy_decision_digest,
    ) && same_ref(&e.testing_evidence, &f.testing_reference);
    if !bound {
        return refuse("EvalReport integrated bindings do not match the final LoopRun authority");
    }
    if !same_byte_strings(&f.report_checks, &f.testing_checks) {
        return refuse("EvalReport checks do not exactly match ordered Testing evidence checks");
    }
    check_final_aggregate(f.passed, f.testing_passed, f.report_passed, f.report_decision)
}

} // verus!
