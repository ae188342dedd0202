//! The run-level parts of an inspection: the immutable inputs, the candidate worktree,
//! and whether final evaluation authority is required and holds.
use vstd::prelude::*;

use crate::digest::digest_hex_spec;
use crate::inspect::{
    class_name, classify_digest, to_lowercase, classify_read_spec, digest_bytes, unicode_lowercase, EvidenceClassification,
    InputDigestInspection, InspectError,
};
use crate::inspect_steps::FinalEvaluationAuthority;
use crate::text::{append_chars, chars_of, opt_view, seq_eq, string_of, string_seq};

verus! {

/// The digests that a run records of its immutable inputs.
#[derive(Debug, Clone, PartialEq, Eq)]
pub struct RecordedInputDigests {
    pub ticket: String,
    pub policy: String,
    pub config: String,
    pub repository: String,
    pub eval_config: Option<String>,
}

/// The inputs in the order they are inspected: ticket, policy, config, repository and
/// eval_config.
pub open spec fn input_name(k: int) -> Seq<char> {
    if k == 0 {
        "ticket"@
    } else if k == 1 {
        "policy"@
    } else if k == 2 {
        "config"@
    } else if k == 3 {
        "repository"@
    } else {
        "eval_config"@
    }
}

pub open spec fn input_path(k: int) -> Seq<char> {
    if k == 0 {
        "inputs/ticket.json"@
    } else if k == 1 {
        "inputs/policy.json"@
    } else if k == 2 {
        "inputs/config.json"@
    } else if k == 3 {
        "inputs/repository.json"@
    } else {
        "inputs/eval-config.json"@
    }
}

pub open spec fn recorded_input(d: RecordedInputDigests, k: int) -> Option<Seq<char>> {
    if k == 0 {
        Some(d.ticket@)
    } else if k == 1 {
        Some(d.policy@)
    } else if k == 2 {
        Some(d.config@)
    } else if k == 3 {
        Some(d.repository@)
    } else {
        opt_view(d.eval_config)
    }
}

/// What the bytes found at input `k` (none where it is missing) make of it.
pub open spec fn input_class(d: RecordedInputDigests, read: Option<Vec<u8>>, k: int) -> EvidenceClassification {
    classify_read_spec(
        match read {
            Some(b) => Some(digest_hex_spec(b@)),
            None => None,
        },
        recorded_input(d, k)->0,
    )
}

pub struct InputView {
    pub name: Seq<char>,
    pub digest: Seq<char>,
    pub path: Seq<char>,
    pub verification: EvidenceClassification,
}

pub open spec fn input_entry(d: RecordedInputDigests, reads: Seq<Option<Vec<u8>>>, k: int) -> Seq<InputView> {
    match recorded_input(d, k) {
        Some(g) => seq![
            InputView { name: input_name(k), digest: g, path: input_path(k), verification: input_class(d, reads[k], k) },
        ],
        None => seq![],
    }
}

pub open spec fn input_message(d: RecordedInputDigests, reads: Seq<Option<Vec<u8>>>, k: int) -> Seq<Seq<char>> {
    if recorded_input(d, k) is Some && input_class(d, reads[k], k) != EvidenceClassification::Verified {
        seq![unicode_lowercase("immutable input "@ + input_name(k) + " is "@ + class_name(input_class(d, reads[k], k)))]
    } else {
        seq![]
    }
}

/// The recorded inputs by name, in name order.
pub open spec fn inputs_by_name(d: RecordedInputDigests, reads: Seq<Option<Vec<u8>>>) -> Seq<InputView> {
    input_entry(d, reads, 2) + input_entry(d, reads, 4) + input_entry(d, reads, 1) + input_entry(d, reads, 3)
        + input_entry(d, reads, 0)
}

/// The integrity messages about the inputs, in the order they are inspected.
pub open spec fn input_messages(d: RecordedInputDigests, reads: Seq<Option<Vec<u8>>>) -> Seq<Seq<char>> {
    input_message(d, reads, 0) + input_message(d, reads, 1) + input_message(d, reads, 2) + input_message(
        d,
        reads,
        3,
    ) + input_message(d, reads, 4)
}

pub open spec fn input_inspection_view(e: (String, InputDigestInspection)) -> InputView {
    InputView { name: e.0@, digest: e.1.digest@, path: e.1.path@, verification: e.1.verification }
}

fn class_name_of(c: EvidenceClassification) -> (r: Vec<char>)
    ensures
        r@ == class_name(c),
{
    match c {
        EvidenceClassification::Current => chars_of("Current"),
        EvidenceClassification::Historical => chars_of("Historical"),
        EvidenceClassification::Ambiguous => chars_of("Ambiguous"),
        EvidenceClassification::Missing => chars_of("Missing"),
        EvidenceClassification::Tampered => chars_of("Tampered"),
        EvidenceClassification::Verified => chars_of("Verified"),
    }
}

fn inspect_input(name: &str, path: &str, digest: &String, read: &Option<Vec<u8>>, messages: &mut Vec<String>) -> (r:
    InputDigestInspection)
    ensures
        r.digest@ == digest@,
        r.path@ == path@,
        r.verification == classify_read_spec(
            match *read {
                Some(b) => Some(digest_hex_spec(b@)),
                None => None,
            },
            digest@,
        ),
        string_seq(final(messages)@) == string_seq(old(messages)@) + if r.verification
            != EvidenceClassification::Verified {
            seq![unicode_lowercase("immutable input "@ + name@ + " is "@ + class_name(r.verification))]
        } else {
            Seq::<Seq<char>>::empty()
        },
{
    let verification = match read {
        Some(b) => classify_digest(Some(b.as_slice()), digest.as_str()),
        None => classify_digest(None, digest.as_str()),
    };
    let ghost before = string_seq(messages@);
    if verification != EvidenceClassification::Verified {
        let mut m = chars_of("immutable input ");
        append_chars(&mut m, &chars_of(name));
        append_chars(&mut m, &chars_of(" is "));
        append_chars(&mut m, &class_name_of(verification));
        let low = to_lowercase(string_of(&m).as_str());
        messages.push(low);
        assert(string_seq(messages@) =~= before.push(low@));
    } else {
        assert(string_seq(messages@) =~= before + Seq::<Seq<char>>::empty());
    }
    InputDigestInspection { digest: digest.clone(), path: string_of(&chars_of(path)), verification }
}

/// The immutable inputs of a run checked against their recorded digests: `reads[k]` are
/// the bytes found at input `k` (in the order ticket, policy, config, repository,
/// eval_config; none where missing). The result lists each recorded input by name, in
/// name order; an integrity message is appended for each input that is not verified.
#[verifier::rlimit(40)]
pub fn inspect_inputs(
    digests: &RecordedInputDigests,
    reads: &Vec<Option<Vec<u8>>>,
    messages: &mut Vec<String>,
) -> (r: Vec<(String, InputDigestInspection)>)
    requires
        reads.len() == 5,
    ensures
        r@.map_values(|e: (String, InputDigestInspection)| input_inspection_view(e)) == inputs_by_name(
            *digests,
            reads@,
        ),
        string_seq(final(messages)@) == string_seq(old(messages)@) + input_messages(*digests, reads@),
{
    let ghost m0 = string_seq(messages@);
    let ghost d = *digests;
    let ghost rv = reads@;
    let ticket = inspect_input("ticket", "inputs/ticket.json", &digests.ticket, &reads[0], messages);
    assert(string_seq(messages@) == m0 + input_message(d, rv, 0));
    let ghost m1 = string_seq(messages@);
    let policy = inspect_input("policy", "inputs/policy.json", &digests.policy, &reads[1], messages);
    assert(string_seq(messages@) == m1 + input_message(d, rv, 1));
    let ghost m2 = string_seq(messages@);
    let config = inspect_input("config", "inputs/config.json", &digests.config, &reads[2], messages);
    assert(string_seq(messages@) == m2 + input_message(d, rv, 2));
    let ghost m3 = string_seq(messages@);
    let repository = inspect_input("repository", "inputs/repository.json", &digests.repository, &reads[3], messages);
    assert(string_seq(messages@) == m3 + input_message(d, rv, 3));
    let ghost m4 = string_seq(messages@);
    let eval_config = match &digests.eval_config {
        Some(g) => Some(inspect_input("eval_config", "inputs/eval-config.json", g, &reads[4], messages)),
        None => None,
    };
    assert(string_seq(messages@) == m4 + input_message(d, rv, 4)) by {
        if digests.eval_config is None {
            assert(m4 + input_message(d, rv, 4) =~= m4);
        }
    }
    proof {
        let a = input_message(d, rv, 0);
        let b = input_message(d, rv, 1);
        let c = input_message(d, rv, 2);
        let e = input_message(d, rv, 3);
        let f = input_message(d, rv, 4);
        assert(m0 + a + b + c + e + f =~= m0 + (a + b + c + e + f));
    }
    let mut out: Vec<(String, InputDigestInspection)> = Vec::new();
    out.push((string_of(&chars_of("config")), config));
    if let Some(e) = eval_config {
        out.push((string_of(&chars_of("eval_config")), e));
    }
    out.push((string_of(&chars_of("policy")), policy));
    out.push((string_of(&chars_of("repository")), repository));
    out.push((string_of(&chars_of("ticket")), ticket));
    proof {
        let v = out@.map_values(|e: (String, InputDigestInspection)| input_inspection_view(e));
        let w = inputs_by_name(d, rv);
        assert(v.len() == w.len());
        assert forall|i: int| 0 <= i < v.len() implies v[i] == w[i] by {
            assert(v[i] == input_inspection_view(out@[i]));
        }
        assert(v =~= w);
    }
    out
}


/// The candidate worktree that a run records; lifecycle and patch phase are held by name.
#[derive(Debug, Clone, PartialEq, Eq)]
pub struct CandidateRecord {
    pub lifecycle: String,
    pub path: String,
    pub starting_head: String,
    pub starting_tree: String,
    pub candidate_head: String,
    pub candidate_tree: String,
    pub candidate_diff_digest: String,
    pub patch_phase: Option<String>,
}

/// What was found at the candidate path: nothing; or something, with whether it is a real
/// directory and what Git reports of it (whether its top level is the path itself, HEAD,
/// the staged diff against HEAD, whether the worktree matches the index, and the
/// untracked files); or a failure to look.
#[derive(Debug, PartialEq, Eq)]
pub enum CandidateObservation {
    Missing,
    Present {
        real_directory: bool,
        toplevel_matches: Result<bool, InspectError>,
        head: Result<String, InspectError>,
        staged_diff: Result<Vec<u8>, InspectError>,
        worktree_matches_index: Result<bool, String>,
        untracked: Result<Vec<u8>, InspectError>,
    },
    Failed(InspectError),
}

/// The candidate worktree as inspection reports it.
#[derive(Debug, Clone, PartialEq, Eq)]
pub struct CandidateInspection {
    pub lifecycle: String,
    pub path: String,
    pub starting_head: String,
    pub starting_tree: String,
    pub recorded_current_head: String,
    pub recorded_current_tree: String,
    pub recorded_diff_digest: String,
    pub observed_head: Option<String>,
    pub observed_staged_diff_digest: Option<String>,
    pub patch_phase: Option<String>,
    pub verification: EvidenceClassification,
}

/// The report carries the record as it is.
pub open spec fn reports_record(i: CandidateInspection, c: CandidateRecord) -> bool {
    &&& i.lifecycle@ == c.lifecycle@
    &&& i.path@ == c.path@
    &&& i.starting_head@ == c.starting_head@
    &&& i.starting_tree@ == c.starting_tree@
    &&& i.recorded_current_head@ == c.candidate_head@
    &&& i.recorded_current_tree@ == c.candidate_tree@
    &&& i.recorded_diff_digest@ == c.candidate_diff_digest@
    &&& opt_view(i.patch_phase) == opt_view(c.patch_phase)
}

pub open spec fn is_safety(e: InspectError, m: Seq<char>) -> bool {
    e is Safety && e->Safety_0@ == m
}

fn copy_error(e: &InspectError) -> (r: InspectError)
    ensures
        r == *e,
{
    match e {
        InspectError::Safety(m) => InspectError::Safety(m.clone()),
        InspectError::Schema(m) => InspectError::Schema(m.clone()),
        InspectError::Workspace(m) => InspectError::Workspace(m.clone()),
        InspectError::Json(m) => InspectError::Json(m.clone()),
        InspectError::Io(m) => InspectError::Io(m.clone()),
    }
}

fn copy_text(o: &Option<String>) -> (r: Option<String>)
    ensures
        opt_view(r) == opt_view(*o),
{
    match o {
        Some(t) => Some(t.clone()),
        None => None,
    }
}

fn candidate_report(
    c: &CandidateRecord,
    observed_head: Option<String>,
    observed_staged_diff_digest: Option<String>,
    verification: EvidenceClassification,
) -> (r: CandidateInspection)
    ensures
        reports_record(r, *c),
        r.observed_head == observed_head,
        r.observed_staged_diff_digest == observed_staged_diff_digest,
        r.verification == verification,
{
    CandidateInspection {
        lifecycle: c.lifecycle.clone(),
        path: c.path.clone(),
        starting_head: c.starting_head.clone(),
        starting_tree: c.starting_tree.clone(),
        recorded_current_head: c.candidate_head.clone(),
        recorded_current_tree: c.candidate_tree.clone(),
        recorded_diff_digest: c.candidate_diff_digest.clone(),
        observed_head,
        observed_staged_diff_digest,
        patch_phase: copy_text(&c.patch_phase),
        verification,
    }
}

/// The candidate worktree of a run checked against what the run recorded of it: a
/// missing worktree is verified only once cleaned; a present one must be a real
/// directory that is exactly its Git worktree root, and is verified only where HEAD and
/// the staged diff match the record, the worktree matches the index, and nothing is
/// untracked. A failure to observe refuses the inspection; an integrity message is
/// appended for a missing or tampered worktree.
pub fn inspect_candidate(
    candidate: &Option<CandidateRecord>,
    observation: &CandidateObservation,
    messages: &mut Vec<String>,
) -> (r: Result<Option<CandidateInspection>, InspectError>)
    ensures
        match *candidate {
            None => r == Ok::<Option<CandidateInspection>, InspectError>(None) && final(messages)@ == old(messages)@,
            Some(c) => match *observation {
                CandidateObservation::Failed(e) => r == Err::<Option<CandidateInspection>, InspectError>(e)
                    && final(messages)@ == old(messages)@,
                CandidateObservation::Missing => {
                    let cleaned = c.lifecycle@ == "Cleaned"@;
                    &&& r matches Ok(Some(i)) && reports_record(i, c) && i.observed_head is None
                        && i.observed_staged_diff_digest is None && i.verification == if cleaned {
                        EvidenceClassification::Verified
                    } else {
                        EvidenceClassification::Missing
                    }
                    &&& string_seq(final(messages)@) == string_seq(old(messages)@) + if cleaned {
                        Seq::<Seq<char>>::empty()
                    } else {
                        seq!["candidate Git authority is missing"@]
                    }
                },
                CandidateObservation::Present {
                    real_directory,
                    toplevel_matches,
                    head,
                    staged_diff,
                    worktree_matches_index,
                    untracked,
                } => if !real_directory {
                    (r matches Err(e) && is_safety(e, "candidate path authority is not a real directory"@))
                        && final(messages)@ == old(messages)@
                } else {
                    (match (toplevel_matches, head, staged_diff, worktree_matches_index, untracked) {
                        (Err(e), _, _, _, _) => r == Err::<Option<CandidateInspection>, InspectError>(e),
                        (Ok(false), _, _, _, _) => (r matches Err(e) && is_safety(
                            e,
                            "candidate path is not the exact Git worktree root"@,
                        )),
                        (Ok(true), Err(e), _, _, _) => r == Err::<Option<CandidateInspection>, InspectError>(e),
                        (Ok(true), Ok(_), Err(e), _, _) => r == Err::<Option<CandidateInspection>, InspectError>(e),
                        (Ok(true), Ok(_), Ok(_), Err(w), _) => (r matches Err(e) && is_safety(
                            e,
                            "candidate physical worktree could not be verified safely: "@ + w@,
                        )),
                        (Ok(true), Ok(_), Ok(_), Ok(_), Err(e)) => r == Err::<Option<CandidateInspection>, InspectError>(e),
                        (Ok(true), Ok(h), Ok(d), Ok(matches_index), Ok(u)) => {
                            let verified = h@ == c.candidate_head@ && digest_hex_spec(d@) == c.candidate_diff_digest@
                                && matches_index && u@.len() == 0;
                            &&& r matches Ok(Some(i)) && reports_record(i, c) && opt_view(i.observed_head) == Some(h@)
                                && opt_view(i.observed_staged_diff_digest) == Some(digest_hex_spec(d@))
                                && i.verification == if verified {
                                EvidenceClassification::Verified
                            } else {
                                EvidenceClassification::Tampered
                            }
                            &&& string_seq(final(messages)@) == string_seq(old(messages)@) + if verified {
                                Seq::<Seq<char>>::empty()
                            } else {
                                seq!["candidate Git authority is tampered"@]
                            }
                        },
                    }) && final(messages)@.len() >= old(messages)@.len()
                },
            },
        },
{
    let c = match candidate {
        None => {
            return Ok(None);
        },
        Some(c) => c,
    };
    let ghost before = string_seq(messages@);
    match observation {
        CandidateObservation::Failed(e) => Err(copy_error(e)),
        CandidateObservation::Missing => {
            let cleaned = seq_eq(&chars_of(c.lifecycle.as_str()), &chars_of("Cleaned"));
            let verification = if cleaned {
                EvidenceClassification::Verified
            } else {
                let text = string_of(&chars_of("candidate Git authority is missing"));
                messages.push(text);
                assert(string_seq(messages@) =~= before.push(text@));
                EvidenceClassification::Missing
            };
            if cleaned {
                assert(string_seq(messages@) =~= before + Seq::<Seq<char>>::empty());
            }
            Ok(Some(candidate_report(c, None, None, verification)))
        },
        CandidateObservation::Present {
            real_directory,
            toplevel_matches,
            head,
            staged_diff,
            worktree_matches_index,
            untracked,
        } => {
            if !*real_directory {
                return Err(InspectError::Safety(string_of(&chars_of("candidate path authority is not a real directory"))));
            }
            match toplevel_matches {
                Err(e) => {
                    return Err(copy_error(e));
                },
                Ok(false) => {
                    return Err(
                        InspectError::Safety(string_of(&chars_of("candidate path is not the exact Git worktree root"))),
                    );
                },
                Ok(true) => {},
            }
            let h = match head {
                Err(e) => {
                    return Err(copy_error(e));
                },
                Ok(h) => h,
            };
            let d = match staged_diff {
                Err(e) => {
                    return Err(copy_error(e));
                },
                Ok(d) => d,
            };
            let matches_index = match worktree_matches_index {
                Err(w) => {
                    let mut m = chars_of("candidate physical worktree could not be verified safely: ");
                    append_chars(&mut m, &chars_of(w.as_str()));
                    return Err(InspectError::Safety(string_of(&m)));
                },
                Ok(b) => *b,
            };
            let u = match untracked {
                Err(e) => {
                    return Err(copy_error(e));
                },
                Ok(u) => u,
            };
            let digest = digest_bytes(d.as_slice());
            let verified = seq_eq(&chars_of(h.as_str()), &chars_of(c.candidate_head.as_str())) && seq_eq(
                &chars_of(digest.as_str()),
                &chars_of(c.candidate_diff_digest.as_str()),
            ) && matches_index && u.len() == 0;
            let verification = if verified {
                assert(string_seq(messages@) =~= before + Seq::<Seq<char>>::empty());
                EvidenceClassification::Verified
            } else {
                let text = string_of(&chars_of("candidate Git authority is tampered"));
                messages.push(text);
                assert(string_seq(messages@) =~= before.push(text@));
                EvidenceClassification::Tampered
            };
            Ok(Some(candidate_report(c, Some(h.clone()), Some(digest), verification)))
        },
    }
}

/// Final evaluation authority as inspection reads it: required where the run's status is
/// EvalPassed, Promoted or Failed and a human approved it; then verified, with the
/// attempt of its execution intent, where loading it (`loaded`) succeeded, else invalid,
/// with an integrity message.
pub fn final_evaluation_authority(
    required: bool,
    loaded: &Result<u32, String>,
    messages: &mut Vec<String>,
) -> (r: FinalEvaluationAuthority)
    ensures
        r == if !required {
            FinalEvaluationAuthority::NotRequired
        } else {
            match *loaded {
                Ok(attempt) => FinalEvaluationAuthority::Verified { attempt },
                Err(_) => FinalEvaluationAuthority::Invalid,
            }
        },
        string_seq(final(messages)@) == string_seq(old(messages)@) + if required && loaded is Err {
            seq!["final evaluation authority is invalid"@]
        } else {
            Seq::<Seq<char>>::empty()
        },
{
    let ghost before = string_seq(messages@);
    if !required {
        assert(string_seq(messages@) =~= before + Seq::<Seq<char>>::empty());
        return FinalEvaluationAuthority::NotRequired;
    }
    match loaded {
        Ok(attempt) => {
            assert(string_seq(messages@) =~= before + Seq::<Seq<char>>::empty());
            FinalEvaluationAuthority::Verified { attempt: *attempt }
        },
        Err(_) => {
            let text = string_of(&chars_of("final evaluation authority is invalid"));
            messages.push(text);
            assert(string_seq(messages@) =~= before.push(text@));
            FinalEvaluationAuthority::Invalid
        },
    }
}

/// The paths that a run references, as plain values: each step's artifact path, each
/// provider exchange record, the EvalReport path, the candidate patch transaction's
/// intent and applied evidence, the four paths of a human approval, and the four of a
/// promotion.
pub struct RunReferences {
    pub step_artifact_paths: Vec<Option<String>>,
    pub provider_record_paths: Vec<String>,
    pub eval_report_path: Option<String>,
    pub patch_intent_path: Option<String>,
    pub patch_evidence_path: Option<String>,
    pub approval_paths: Option<(String, String, String, String)>,
    pub promotion_paths: Option<(String, String, String, String)>,
}

pub open spec fn present_paths(v: Seq<Option<String>>) -> Seq<Seq<char>>
    decreases v.len(),
{
    if v.len() == 0 {
        seq![]
    } else {
        present_paths(v.drop_last()) + match v.last() {
            Some(p) => seq![p@],
            None => seq![],
        }
    }
}

pub open spec fn four(t: Option<(String, String, String, String)>) -> Seq<Seq<char>> {
    match t {
        Some((a, b, c, d)) => seq![a@, b@, c@, d@],
        None => seq![],
    }
}

pub open spec fn one(o: Option<String>) -> Seq<Seq<char>> {
    match o {
        Some(p) => seq![p@],
        None => seq![],
    }
}

/// Every referenced path in the order in which inspection checks them; the applied
/// evidence counts only with a transaction intent.
pub open spec fn referenced_paths_spec(r: RunReferences) -> Seq<Seq<char>> {
    present_paths(r.step_artifact_paths@) + texts(r.provider_record_paths@) + one(
        r.eval_report_path,
    ) + (if r.patch_intent_path is Some {
        one(r.patch_intent_path) + one(r.patch_evidence_path)
    } else {
        seq![]
    }) + four(r.approval_paths) + four(r.promotion_paths)
}

fn push_copy(out: &mut Vec<String>, p: &String)
    ensures
        texts(final(out)@) == texts(old(out)@).push(p@),
{
    let ghost before = texts(out@);
    out.push(p.clone());
    assert(texts(out@) =~= before.push(p@));
}

pub open spec fn texts(v: Seq<String>) -> Seq<Seq<char>> {
    v.map_values(|x: String| x@)
}

fn push_present(out: &mut Vec<String>, v: &Vec<Option<String>>)
    ensures
        texts(final(out)@) == texts(old(out)@) + present_paths(v@),
{
    let ghost base = texts(out@);
    let mut i: usize = 0;
    assert(base + present_paths(v@.take(0)) =~= base);
    while i < v.len()
        invariant
            i <= v.len(),
            texts(out@) == base + present_paths(v@.take(i as int)),
        decreases v.len() - i,
    {
        assert(v@.take(i + 1).drop_last() =~= v@.take(i as int));
        match &v[i] {
            Some(p) => {
                push_copy(out, p);
                assert(base + present_paths(v@.take(i + 1)) =~= base + present_paths(v@.take(i as int)) + seq![p@]);
            },
            None => {
                assert(base + present_paths(v@.take(i + 1)) =~= base + present_paths(v@.take(i as int)));
            },
        }
        i = i + 1;
    }
    assert(v@.take(v.len() as int) =~= v@);
}

fn push_all(out: &mut Vec<String>, v: &Vec<String>)
    ensures
        texts(final(out)@) == texts(old(out)@) + texts(v@),
{
    let ghost base = texts(out@);
    let mut j: usize = 0;
    assert(base + texts(v@.take(0)) =~= base);
    while j < v.len()
        invariant
            j <= v.len(),
            texts(out@) == base + texts(v@.take(j as int)),
        decreases v.len() - j,
    {
        push_copy(out, &v[j]);
        assert(base + texts(v@.take(j + 1)) =~= base + texts(v@.take(j as int)) + seq![v@[j as int]@]);
        j = j + 1;
    }
    assert(v@.take(v.len() as int) =~= v@);
}

fn push_one(out: &mut Vec<String>, o: &Option<String>)
    ensures
        texts(final(out)@) == texts(old(out)@) + one(*o),
{
    let ghost base = texts(out@);
    if let Some(p) = o {
        push_copy(out, p);
    }
    assert(texts(out@) =~= base + one(*o));
}

fn push_four(out: &mut Vec<String>, t: &Option<(String, String, String, String)>)
    ensures
        texts(final(out)@) == texts(old(out)@) + four(*t),
{
    let ghost base = texts(out@);
    if let Some((a, b, c, d)) = t {
        push_copy(out, a);
        push_copy(out, b);
        push_copy(out, c);
        push_copy(out, d);
    }
    assert(texts(out@) =~= base + four(*t));
}

/// The paths that a run references, in the order in which inspection checks that each is
/// a portable artifact path.
pub fn referenced_paths(r: &RunReferences) -> (out: Vec<String>)
    ensures
        texts(out@) == referenced_paths_spec(*r),
{
    let mut out: Vec<String> = Vec::new();
    assert(texts(out@) =~= Seq::<Seq<char>>::empty());
    push_present(&mut out, &r.step_artifact_paths);
    push_all(&mut out, &r.provider_record_paths);
    push_one(&mut out, &r.eval_report_path);
    let ghost mid = texts(out@);
    if r.patch_intent_path.is_some() {
        push_one(&mut out, &r.patch_intent_path);
        push_one(&mut out, &r.patch_evidence_path);
    }
    assert(texts(out@) =~= mid + (if r.patch_intent_path is Some {
        one(r.patch_intent_path) + one(r.patch_evidence_path)
    } else {
        seq![]
    }));
    push_four(&mut out, &r.approval_paths);
    push_four(&mut out, &r.promotion_paths);
    out
}

/// The refusal of a run that references a path that is not a portable artifact path.
pub fn unsafe_referenced_path(path: &str) -> (r: InspectError)
    ensures
        r == InspectError::Safety(r->Safety_0) && r->Safety_0@ == "run contains unsafe referenced path: "@ + path@,
{
    let mut m = chars_of("run contains unsafe referenced path: ");
    append_chars(&mut m, &chars_of(path));
    InspectError::Safety(string_of(&m))
}

} // verus!
