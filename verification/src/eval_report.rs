//! The outcome of a loop's evaluation report and the identifiers it derives.
use vstd::prelude::*;

use crate::eval_engine::CheckStatus;
use crate::number::{decimal, decimal_exec};
use crate::text::{append_chars, chars_of, is_alnum, join_chars, seq_eq, string_of};

verus! {

pub open spec fn is_id_char(c: char) -> bool {
    is_alnum(c) || c == '-' || c == '_'
}

/// Every character that may not stand in an identifier replaced by `_`.
pub open spec fn id_chars(s: Seq<char>) -> Seq<char> {
    s.map_values(|c: char| if is_id_char(c) { c } else { '_' })
}

/// The number of leading `_` of `s`.
pub open spec fn leading_underscores(s: Seq<char>) -> nat
    decreases s.len(),
{
    if s.len() > 0 && s[0] == '_' {
        1 + leading_underscores(s.skip(1))
    } else {
        0
    }
}

/// The number of trailing `_` of `s`.
pub open spec fn trailing_underscores(s: Seq<char>) -> nat
    decreases s.len(),
{
    if s.len() > 0 && s.last() == '_' {
        1 + trailing_underscores(s.drop_last())
    } else {
        0
    }
}

/// `s` without its leading and trailing `_`.
pub open spec fn trim_underscores(s: Seq<char>) -> Seq<char> {
    let rest = s.skip(leading_underscores(s) as int);
    rest.take(rest.len() - trailing_underscores(rest))
}

/// A run ID as it may stand in a report ID: unsafe characters as `_`, no `_` at either
/// end, and `local` where nothing is left.
pub open spec fn sanitize_id_spec(value: Seq<char>) -> Seq<char> {
    let t = trim_underscores(id_chars(value));
    if t.len() == 0 {
        "local"@
    } else {
        t
    }
}

proof fn lemma_leading_at(s: Seq<char>, k: int)
    requires
        0 <= k <= s.len(),
        forall|j: int| 0 <= j < k ==> #[trigger] s[j] == '_',
        k == s.len() || s[k] != '_',
    ensures
        leading_underscores(s) == k,
    decreases k,
{
    if k > 0 {
        assert forall|j: int| 0 <= j < k - 1 implies #[trigger] s.skip(1)[j] == '_' by {
            assert(s.skip(1)[j] == s[j + 1]);
        }
        if k - 1 < s.skip(1).len() {
            assert(s.skip(1)[k - 1] == s[k]);
        }
        lemma_leading_at(s.skip(1), k - 1);
    }
}

proof fn lemma_trailing_at(s: Seq<char>, k: int)
    requires
        0 <= k <= s.len(),
        forall|j: int| s.len() - k <= j < s.len() ==> #[trigger] s[j] == '_',
        k == s.len() || s[s.len() - k - 1] != '_',
    ensures
        trailing_underscores(s) == k,
    decreases k,
{
    if k > 0 {
        let t = s.drop_last();
        assert forall|j: int| t.len() - (k - 1) <= j < t.len() implies #[trigger] t[j] == '_' by {
            assert(t[j] == s[j]);
        }
        if k - 1 < t.len() {
            assert(t[t.len() - (k - 1) - 1] == s[s.len() - k - 1]);
        }
        assert(s.last() == s[s.len() - 1]);
        lemma_trailing_at(t, k - 1);
    } else if s.len() > 0 {
        assert(s.last() == s[s.len() - 1]);
    }
}

pub fn sanitize_id(value: &str) -> (r: String)
    ensures
        r@ == sanitize_id_spec(value@),
{
    let v = chars_of(value);
    let mut s: Vec<char> = Vec::new();
    let mut i: usize = 0;
    while i < v.len()
        invariant
            i <= v.len(),
            v@ == value@,
            s@ == id_chars(v@.take(i as int)),
        decreases v.len() - i,
    {
        let c = v[i];
        let mapped = if ('0' <= c && c <= '9') || ('a' <= c && c <= 'z') || ('A' <= c && c <= 'Z')
            || c == '-' || c == '_' {
            c
        } else {
            '_'
        };
        s.push(mapped);
        assert(id_chars(v@.take(i + 1)) =~= id_chars(v@.take(i as int)).push(mapped));
        i = i + 1;
    }
    assert(v@.take(v.len() as int) =~= v@);
    let mut a: usize = 0;
    while a < s.len() && s[a] == '_'
        invariant
            a <= s.len(),
            forall|j: int| 0 <= j < a ==> #[trigger] s@[j] == '_',
        decreases s.len() - a,
    {
        a = a + 1;
    }
    proof {
        lemma_leading_at(s@, a as int);
    }
    let ghost rest = s@.skip(a as int);
    let mut k: usize = 0;
    while k < s.len() - a && s[s.len() - 1 - k] == '_'
        invariant
            a <= s.len(),
            rest == s@.skip(a as int),
            k <= s.len() - a,
            forall|j: int| rest.len() - k <= j < rest.len() ==> #[trigger] rest[j] == '_',
        decreases s.len() - a - k,
    {
        assert(rest[rest.len() - k - 1] == s@[s.len() - 1 - k]);
        k = k + 1;
    }
    proof {
        if k < rest.len() {
            assert(rest[rest.len() - k - 1] == s@[s.len() - 1 - k]);
        }
        lemma_trailing_at(rest, k as int);
    }
    let t = crate::text::slice_of(&s, a, s.len() - k);
    assert(t@ =~= rest.take(rest.len() - k));
    if t.len() == 0 {
        string_of(&chars_of("local"))
    } else {
        string_of(&t)
    }
}

/// `eval_<sanitized run ID>`: the ID of a run's evaluation report.
pub fn eval_report_id(run_id: &str) -> (r: String)
    ensures
        r@ == "eval_"@ + sanitize_id_spec(run_id@),
{
    string_of(&join_chars(&chars_of("eval_"), &chars_of(sanitize_id(run_id).as_str())))
}

/// The risk that a report assigns.
#[derive(Debug, Clone, Copy, PartialEq, Eq, Structural)]
pub enum RiskLevel {
    Low,
    High,
}

/// What a report decides.
#[derive(Debug, Clone, Copy, PartialEq, Eq, Structural)]
pub enum EvalDecision {
    ApproveForHumanReview,
    Reject,
}

/// A report's outcome: passed, its summary, its risk and its decision.
pub struct ReportOutcome {
    pub passed: bool,
    pub summary: String,
    pub risk_level: RiskLevel,
    pub decision: EvalDecision,
}

pub open spec fn all_passed(statuses: Seq<CheckStatus>) -> bool {
    forall|i: int| 0 <= i < statuses.len() ==> #[trigger] statuses[i] == CheckStatus::Passed
}

/// The outcome of a report's checks: it passes exactly when every check passed.
pub fn report_outcome(statuses: &[CheckStatus]) -> (r: ReportOutcome)
    ensures
        r.passed == all_passed(statuses@),
        r.summary@ == (if r.passed {
            "Loop run and required eval checks passed."@
        } else {
            "Loop run or required eval checks failed."@
        }),
        r.risk_level == (if r.passed {
            RiskLevel::Low
        } else {
            RiskLevel::High
        }),
        r.decision == (if r.passed {
            EvalDecision::ApproveForHumanReview
        } else {
            EvalDecision::Reject
        }),
{
    let mut passed = true;
    let mut i: usize = 0;
    while i < statuses.len()
        invariant
            i <= statuses.len(),
            passed == forall|j: int| 0 <= j < i ==> #[trigger] statuses@[j] == CheckStatus::Passed,
        decreases statuses.len() - i,
    {
        if statuses[i] != CheckStatus::Passed {
            passed = false;
        }
        i = i + 1;
    }
    if passed {
        ReportOutcome {
            passed,
            summary: string_of(&chars_of("Loop run and required eval checks passed.")),
            risk_level: RiskLevel::Low,
            decision: EvalDecision::ApproveForHumanReview,
        }
    } else {
        ReportOutcome {
            passed,
            summary: string_of(&chars_of("Loop run or required eval checks failed.")),
            risk_level: RiskLevel::High,
            decision: EvalDecision::Reject,
        }
    }
}

/// One recorded patch policy decision: the patch it decided and whether it rejected it.
pub struct PolicyDecisionSummary {
    pub patch_id: String,
    pub rejected: bool,
}

pub open spec fn join_semicolons(v: Seq<Seq<char>>) -> Seq<char>
    decreases v.len(),
{
    if v.len() == 0 {
        seq![]
    } else if v.len() == 1 {
        v[0]
    } else {
        join_semicolons(v.drop_last()) + "; "@ + v.last()
    }
}

/// The messages about decisions that name another patch, in order.
pub open spec fn mismatch_messages(decisions: Seq<PolicyDecisionSummary>, run_id: Seq<char>) -> Seq<Seq<char>>
    decreases decisions.len(),
{
    if decisions.len() == 0 {
        seq![]
    } else {
        let rest = mismatch_messages(decisions.drop_last(), run_id);
        let d = decisions.last();
        let index = (decisions.len() - 1) as nat;
        if d.patch_id@ != run_id {
            rest.push(
                "policy_decisions["@ + decimal(index) + "].patch_id "@ + d.patch_id@
                    + " does not match run_id "@ + run_id,
            )
        } else {
            rest
        }
    }
}

/// The messages about decisions of this patch that rejected it, in order.
pub open spec fn rejection_messages(decisions: Seq<PolicyDecisionSummary>, run_id: Seq<char>) -> Seq<Seq<char>>
    decreases decisions.len(),
{
    if decisions.len() == 0 {
        seq![]
    } else {
        let rest = rejection_messages(decisions.drop_last(), run_id);
        let d = decisions.last();
        let index = (decisions.len() - 1) as nat;
        if d.patch_id@ == run_id && d.rejected {
            rest.push("policy_decisions["@ + decimal(index) + "] rejected patch"@)
        } else {
            rest
        }
    }
}

/// The patch policy gate check: passed only when a decision was recorded, every decision
/// names this run's patch, and none rejected it.
pub open spec fn policy_gate_spec(decisions: Seq<PolicyDecisionSummary>, run_id: Seq<char>) -> (bool, Seq<char>) {
    if decisions.len() == 0 {
        (false, "No patch policy gate decision was recorded; refusing to approve without gate evidence."@)
    } else if mismatch_messages(decisions, run_id).len() > 0 {
        (false, join_semicolons(mismatch_messages(decisions, run_id)))
    } else if rejection_messages(decisions, run_id).len() > 0 {
        (false, join_semicolons(rejection_messages(decisions, run_id)))
    } else {
        (true, "Recorded patch policy gate decisions did not reject the patch."@)
    }
}

fn push_joined(acc: &mut Vec<char>, count: &mut usize, message: &Vec<char>)
    requires
        *old(count) < usize::MAX,
        *old(count) == 0 ==> old(acc)@.len() == 0,
    ensures
        *final(count) == *old(count) + 1,
        *old(count) == 0 ==> final(acc)@ == message@,
        *old(count) > 0 ==> final(acc)@ == old(acc)@ + "; "@ + message@,
{
    if *count > 0 {
        append_chars(acc, &chars_of("; "));
    }
    append_chars(acc, message);
    if *count == 0 {
        assert(acc@ =~= message@);
    }
    *count = *count + 1;
}

pub fn patch_policy_gate_check(decisions: &[PolicyDecisionSummary], run_id: &str) -> (r: (bool, String))
    ensures
        (r.0, r.1@) == policy_gate_spec(decisions@, run_id@),
{
    if decisions.len() == 0 {
        return (
            false,
            string_of(
                &chars_of(
                    "No patch policy gate decision was recorded; refusing to approve without gate evidence.",
                ),
            ),
        );
    }
    let id = chars_of(run_id);
    let mut mismatched: Vec<char> = Vec::new();
    let mut mismatch_count: usize = 0;
    let mut rejected: Vec<char> = Vec::new();
    let mut reject_count: usize = 0;
    let mut i: usize = 0;
    while i < decisions.len()
        invariant
            i <= decisions.len(),
            id@ == run_id@,
            mismatch_count == mismatch_messages(decisions@.take(i as int), run_id@).len(),
            reject_count == rejection_messages(decisions@.take(i as int), run_id@).len(),
            mismatch_count <= i,
            reject_count <= i,
            mismatched@ == join_semicolons(mismatch_messages(decisions@.take(i as int), run_id@)),
            rejected@ == join_semicolons(rejection_messages(decisions@.take(i as int), run_id@)),
        decreases decisions.len() - i,
    {
        let ghost prev = decisions@.take(i as int);
        assert(decisions@.take(i + 1).drop_last() =~= prev);
        assert(decisions@.take(i + 1).last() == decisions@[i as int]);
        let d = &decisions[i];
        let mut index = decimal_exec(i as u64);
        if !crate::text::seq_eq(&chars_of(d.patch_id.as_str()), &id) {
            let mut m = chars_of("policy_decisions[");
            append_chars(&mut m, &index);
            append_chars(&mut m, &chars_of("].patch_id "));
            append_chars(&mut m, &chars_of(d.patch_id.as_str()));
            append_chars(&mut m, &chars_of(" does not match run_id "));
            append_chars(&mut m, &id);
            let ghost msgs = mismatch_messages(prev, run_id@);
            push_joined(&mut mismatched, &mut mismatch_count, &m);
            assert(mismatch_messages(decisions@.take(i + 1), run_id@) =~= msgs.push(m@));
            assert(msgs.push(m@).drop_last() =~= msgs);
        } else if d.rejected {
            let mut m = chars_of("policy_decisions[");
            append_chars(&mut m, &index);
            append_chars(&mut m, &chars_of("] rejected patch"));
            let ghost msgs = rejection_messages(prev, run_id@);
            push_joined(&mut rejected, &mut reject_count, &m);
            assert(rejection_messages(decisions@.take(i + 1), run_id@) =~= msgs.push(m@));
            assert(msgs.push(m@).drop_last() =~= msgs);
        }
        i = i + 1;
    }
    assert(decisions@.take(decisions.len() as int) =~= decisions@);
    if mismatch_count > 0 {
        return (false, string_of(&mismatched));
    }
    if reject_count > 0 {
        return (false, string_of(&rejected));
    }
    (true, string_of(&chars_of("Recorded patch policy gate decisions did not reject the patch.")))
}


/// The schema failures of a report, in order: the run's field errors as
/// `loop_run.<field>: <message>`, the ticket's as `ticket.<field>: <message>`, and a goal
/// mismatch.
pub open spec fn schema_failures(
    run_errors: Seq<(String, String)>,
    ticket_errors: Seq<(String, String)>,
    run_goal: Seq<char>,
    ticket_goal: Seq<char>,
) -> Seq<Seq<char>> {
    run_errors.map_values(|e: (String, String)| "loop_run."@ + e.0@ + ": "@ + e.1@) + ticket_errors.map_values(
        |e: (String, String)| "ticket."@ + e.0@ + ": "@ + e.1@,
    ) + if run_goal == ticket_goal {
        Seq::<Seq<char>>::empty()
    } else {
        seq!["run.goal_id must match ticket.goal_id ("@ + run_goal + " != "@ + ticket_goal + ")"@]
    }
}

/// Texts joined by `; `.
pub open spec fn joined(texts: Seq<Seq<char>>) -> Seq<char>
    decreases texts.len(),
{
    if texts.len() == 0 {
        seq![]
    } else if texts.len() == 1 {
        texts[0]
    } else {
        joined(texts.drop_last()) + "; "@ + texts.last()
    }
}

fn push_prefixed(failures: &mut Vec<Vec<char>>, prefix: &str, errors: &[(String, String)])
    ensures
        final(failures)@.map_values(|f: Vec<char>| f@) == old(failures)@.map_values(|f: Vec<char>| f@)
            + errors@.map_values(|e: (String, String)| prefix@ + e.0@ + ": "@ + e.1@),
{
    let ghost start = failures@.map_values(|f: Vec<char>| f@);
    let mut i: usize = 0;
    while i < errors.len()
        invariant
            i <= errors.len(),
            failures@.map_values(|f: Vec<char>| f@) == start + errors@.take(i as int).map_values(
                |e: (String, String)| prefix@ + e.0@ + ": "@ + e.1@,
            ),
        decreases errors.len() - i,
    {
        let mut f = chars_of(prefix);
        append_chars(&mut f, &chars_of(errors[i].0.as_str()));
        append_chars(&mut f, &chars_of(": "));
        append_chars(&mut f, &chars_of(errors[i].1.as_str()));
        let ghost before = failures@.map_values(|f: Vec<char>| f@);
        failures.push(f);
        assert(failures@.map_values(|f: Vec<char>| f@) =~= before.push(f@));
        assert(errors@.take(i + 1).map_values(|e: (String, String)| prefix@ + e.0@ + ": "@ + e.1@) =~= errors@.take(
            i as int,
        ).map_values(|e: (String, String)| prefix@ + e.0@ + ": "@ + e.1@).push(
            prefix@ + errors@[i as int].0@ + ": "@ + errors@[i as int].1@,
        ));
        i = i + 1;
    }
    assert(errors@.take(errors.len() as int) =~= errors@);
}

/// The schema validation check of a loop's report: it passes when neither the run nor the
/// ticket has a field error and their goals match; its summary lists every failure.
pub fn schema_validation_check(
    run_errors: &[(String, String)],
    ticket_errors: &[(String, String)],
    run_goal: &str,
    ticket_goal: &str,
) -> (r: (bool, String))
    ensures
        ({
            let failures = schema_failures(run_errors@, ticket_errors@, run_goal@, ticket_goal@);
            &&& r.0 == (failures.len() == 0)
            &&& r.1@ == if failures.len() == 0 {
                "Loop run and ticket schemas are valid."@
            } else {
                joined(failures)
            }
        }),
{
    let mut failures: Vec<Vec<char>> = Vec::new();
    push_prefixed(&mut failures, "loop_run.", run_errors);
    push_prefixed(&mut failures, "ticket.", ticket_errors);
    if !seq_eq(&chars_of(run_goal), &chars_of(ticket_goal)) {
        let mut f = chars_of("run.goal_id must match ticket.goal_id (");
        append_chars(&mut f, &chars_of(run_goal));
        append_chars(&mut f, &chars_of(" != "));
        append_chars(&mut f, &chars_of(ticket_goal));
        append_chars(&mut f, &chars_of(")"));
        let ghost before = failures@.map_values(|f: Vec<char>| f@);
        failures.push(f);
        assert(failures@.map_values(|f: Vec<char>| f@) =~= before.push(f@));
    }
    let ghost fv = failures@.map_values(|f: Vec<char>| f@);
    assert(fv =~= schema_failures(run_errors@, ticket_errors@, run_goal@, ticket_goal@));
    if failures.len() == 0 {
        return (true, string_of(&chars_of("Loop run and ticket schemas are valid.")));
    }
    let mut out: Vec<char> = Vec::new();
    let mut k: usize = 0;
    while k < failures.len()
        invariant
            k <= failures.len(),
            fv == failures@.map_values(|f: Vec<char>| f@),
            out@ == joined(fv.take(k as int)),
        decreases failures.len() - k,
    {
        assert(fv.take(k + 1).drop_last() =~= fv.take(k as int));
        assert(fv.take(k + 1).last() == failures@[k as int]@);
        let ghost before = out@;
        if k > 0 {
            append_chars(&mut out, &chars_of("; "));
        } else {
            assert(fv.take(1)[0] == fv[0]);
        }
        append_chars(&mut out, &failures[k]);
        if k > 0 {
            assert(out@ =~= before + "; "@ + failures@[k as int]@);
        } else {
            assert(out@ =~= fv[0]);
        }
        k = k + 1;
    }
    assert(fv.take(failures.len() as int) =~= fv);
    (false, string_of(&out))
}

/// The check of a loop step in a report: it passes when the step (found with its status,
/// by name, as the status displays) has Passed or Completed.
pub open spec fn loop_step_check_spec(step_name: Seq<char>, status: Option<Seq<char>>) -> (bool, Seq<char>) {
    match status {
        None => (false, "Loop step "@ + step_name + " is missing from run state."@),
        Some(s) => (s == "Passed"@ || s == "Completed"@, "Loop step "@ + step_name + " status is "@ + s + "."@),
    }
}

pub fn loop_step_check(step_name: &str, status: Option<&str>) -> (r: (bool, String))
    ensures
        (r.0, r.1@) == loop_step_check_spec(
            step_name@,
            match status {
                Some(s) => Some(s@),
                None => None,
            },
        ),
{
    match status {
        None => {
            let mut m = chars_of("Loop step ");
            append_chars(&mut m, &chars_of(step_name));
            append_chars(&mut m, &chars_of(" is missing from run state."));
            (false, string_of(&m))
        },
        Some(s) => {
            let sc = chars_of(s);
            let passed = seq_eq(&sc, &chars_of("Passed")) || seq_eq(&sc, &chars_of("Completed"));
            let mut m = chars_of("Loop step ");
            append_chars(&mut m, &chars_of(step_name));
            append_chars(&mut m, &chars_of(" status is "));
            append_chars(&mut m, &sc);
            append_chars(&mut m, &chars_of("."));
            (passed, string_of(&m))
        },
    }
}

} // verus!
