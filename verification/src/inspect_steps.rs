//! The artifact history of one loop step: which role artifacts it has left, which of them
//! the step selects, and how far durable authority backs that selection.
use vstd::prelude::*;

use crate::digest::digest_hex_spec;
use crate::inspect::{
    classify_digest, classify_read_spec, distinct_strings, prompt_attempt_identity,
    prompt_attempt_identity_spec, role_artifact_identity, role_artifact_identity_spec,
    seq_contains_string, ArtifactHistoryInspection, EvidenceClassification, InspectError,
    InventoryEntry, MAX_ARTIFACT_HISTORY_PER_STEP,
};
use crate::number::{decimal, decimal_exec};
use crate::policy::{kept_components, split_char};
use crate::text::{
    append_chars, chars_of, contains_seq, contains_seq_exec, ends_with, has_prefix, has_suffix,
    starts_with, lemma_lex_asymmetric, lemma_lex_irreflexive, lemma_lex_total,
    lemma_lex_transitive, lex_less, lex_lt, opt_view, seq_eq, string_of, string_seq,
};

verus! {

/// A prompt file name that looks like a retried prompt of the step with this stem but is
/// not a canonical one.
pub open spec fn malformed_prompt(stem: Seq<char>, name: Seq<char>) -> bool {
    &&& prompt_attempt_identity_spec(stem, name) is None
    &&& starts_with(name, stem)
    &&& contains_seq(name, ".attempt-"@)
    &&& ends_with(name, ".prompt.md"@)
}

/// The larger of a recorded maximum and a newly seen attempt.
pub open spec fn raise_maximum(current: Option<u32>, attempt: u32) -> Option<u32> {
    match current {
        Some(x) => Some(
            if x < attempt {
                attempt
            } else {
                x
            },
        ),
        None => Some(attempt),
    }
}

/// The per-step prompt counts and maxima after one more prompt name.
pub open spec fn count_prompt(counts: Seq<nat>, maxima: Seq<Option<u32>>, stems: Seq<Seq<char>>, name: Seq<char>) -> (
    Seq<nat>,
    Seq<Option<u32>>,
) {
    (
        Seq::new(
            counts.len(),
            |k: int|
                counts[k] + if prompt_attempt_identity_spec(stems[k], name) is Some {
                    1nat
                } else {
                    0nat
                },
        ),
        Seq::new(
            maxima.len(),
            |k: int|
                match prompt_attempt_identity_spec(stems[k], name) {
                    Some(a) => raise_maximum(maxima[k], a),
                    None => maxima[k],
                },
        ),
    )
}

/// The prompt directory's entries read in order: per step, how many prompts it has and
/// the highest attempt among them; or the refusal of the first entry that is unsafe, not
/// UTF-8, or a malformed attempt name.
pub open spec fn prompt_scan(entries: Seq<InventoryEntry>, stems: Seq<Seq<char>>) -> Result<
    (Seq<nat>, Seq<Option<u32>>),
    Seq<char>,
>
    decreases entries.len(),
{
    if entries.len() == 0 {
        Ok((Seq::new(stems.len(), |k: int| 0nat), Seq::new(stems.len(), |k: int| None::<u32>)))
    } else {
        match prompt_scan(entries.drop_last(), stems) {
            Err(e) => Err(e),
            Ok((counts, maxima)) => {
                let e = entries.last();
                if !e.regular_file {
                    Err("prompt inventory contains unsafe entry: "@ + e.display_path@)
                } else if !e.utf8 {
                    Err("prompt inventory contains a non-UTF-8 name"@)
                } else if exists|k: int| 0 <= k < stems.len() && malformed_prompt(#[trigger] stems[k], e.name@) {
                    Err("prompt attempt name is malformed, non-canonical, or exhausted: "@ + e.name@)
                } else {
                    Ok(count_prompt(counts, maxima, stems, e.name@))
                }
            },
        }
    }
}

/// Whether a step's prompts skip an attempt: they are fewer than their highest attempt.
pub open spec fn skips_attempt(count: nat, maximum: Option<u32>) -> bool {
    match maximum {
        Some(x) => count != x,
        None => false,
    }
}

/// The first of the first `n` steps whose prompts skip an attempt.
pub open spec fn first_skipping(counts: Seq<nat>, maxima: Seq<Option<u32>>, n: int) -> Option<int>
    decreases n,
{
    if n <= 0 {
        None
    } else {
        match first_skipping(counts, maxima, n - 1) {
            Some(k) => Some(k),
            None => if skips_attempt(counts[n - 1], maxima[n - 1]) {
                Some(n - 1)
            } else {
                None
            },
        }
    }
}

/// The highest prompt attempt of each step, or why the prompt directory is refused.
pub open spec fn prompt_attempts_spec(
    entries: Seq<InventoryEntry>,
    step_names: Seq<Seq<char>>,
    stems: Seq<Seq<char>>,
) -> Result<Seq<Option<u32>>, Seq<char>> {
    match prompt_scan(entries, stems) {
        Err(e) => Err(e),
        Ok((counts, maxima)) => match first_skipping(counts, maxima, stems.len() as int) {
            Some(k) => Err("prompt attempt sequence for "@ + step_names[k] + " contains a skipped attempt"@),
            None => Ok(maxima),
        },
    }
}

/// The highest prompt attempt of each step (named `step_names[k]`, with file stem
/// `stems[k]`) that the run's prompt directory holds, from its entries in the order read.
/// Every prompt of a step from the first to the highest must be there.
pub fn inspect_prompt_attempts(
    entries: &Vec<InventoryEntry>,
    step_names: &Vec<String>,
    stems: &Vec<String>,
) -> (r: Result<Vec<Option<u32>>, InspectError>)
    requires
        step_names.len() == stems.len(),
    ensures
        match r {
            Ok(maxima) => prompt_attempts_spec(entries@, string_seq(step_names@), string_seq(stems@)) == Ok::<
                Seq<Option<u32>>,
                Seq<char>,
            >(maxima@),
            Err(e) => e is Safety && prompt_attempts_spec(entries@, string_seq(step_names@), string_seq(stems@))
                == Err::<Seq<Option<u32>>, Seq<char>>(e->Safety_0@),
        },
{
    let ghost sv = string_seq(stems@);
    let n = stems.len();
    let mut counts: Vec<usize> = Vec::new();
    let mut maxima: Vec<Option<u32>> = Vec::new();
    let mut k: usize = 0;
    while k < n
        invariant
            k <= n == stems.len(),
            counts@.len() == k && maxima@.len() == k,
            forall|j: int| 0 <= j < k ==> #[trigger] counts@[j] == 0,
            forall|j: int| 0 <= j < k ==> #[trigger] maxima@[j] == None::<u32>,
        decreases n - k,
    {
        counts.push(0);
        maxima.push(None);
        k = k + 1;
    }
    assert(prompt_scan(entries@.take(0), sv) == Ok::<(Seq<nat>, Seq<Option<u32>>), Seq<char>>(
        (Seq::new(sv.len(), |k: int| 0nat), Seq::new(sv.len(), |k: int| None::<u32>)),
    ));
    assert(Seq::new(sv.len(), |k: int| None::<u32>) =~= maxima@);
    let mut i: usize = 0;
    while i < entries.len()
        invariant
            i <= entries.len(),
            n == stems.len() == sv.len(),
            sv == string_seq(stems@),
            counts@.len() == n && maxima@.len() == n,
            forall|j: int| 0 <= j < n ==> #[trigger] counts@[j] <= i,
            prompt_scan(entries@.take(i as int), sv) is Ok,
            prompt_scan(entries@.take(i as int), sv)->Ok_0.0.len() == n,
            forall|j: int| 0 <= j < n ==> prompt_scan(entries@.take(i as int), sv)->Ok_0.0[j] == #[trigger] counts@[j] as nat,
            prompt_scan(entries@.take(i as int), sv)->Ok_0.1 == maxima@,
        decreases entries.len() - i,
    {
        let ghost prev = entries@.take(i as int);
        assert(entries@.take(i + 1).drop_last() =~= prev);
        assert(entries@.take(i + 1).last() == entries@[i as int]);
        let e = &entries[i];
        if !e.regular_file {
            let mut m = chars_of("prompt inventory contains unsafe entry: ");
            append_chars(&mut m, &chars_of(e.display_path.as_str()));
            proof {
                lemma_prompt_scan_error_sticks(entries@, sv, i as int + 1);
            }
            return Err(InspectError::Safety(string_of(&m)));
        }
        if !e.utf8 {
            proof {
                lemma_prompt_scan_error_sticks(entries@, sv, i as int + 1);
            }
            return Err(InspectError::Safety(string_of(&chars_of("prompt inventory contains a non-UTF-8 name"))));
        }
        let name = chars_of(e.name.as_str());
        let mut attempts: Vec<Option<u32>> = Vec::new();
        let mut s: usize = 0;
        while s < n
            invariant
                s <= n == stems.len() == sv.len(),
                sv == string_seq(stems@),
                name@ == e.name@,
                i < entries.len(),
                *e == entries@[i as int],
                prompt_scan(entries@.take(i as int), sv) is Ok,
                entries@.take(i + 1).drop_last() == entries@.take(i as int),
                entries@.take(i + 1).last() == entries@[i as int],
                e.regular_file && e.utf8,
                attempts@.len() == s,
                forall|j: int| 0 <= j < s ==> #[trigger] attempts@[j] == prompt_attempt_identity_spec(sv[j], name@),
                forall|j: int| 0 <= j < s ==> !malformed_prompt(#[trigger] sv[j], name@),
            decreases n - s,
        {
            assert(sv[s as int] == stems@[s as int]@);
            let id = prompt_attempt_identity(stems[s].as_str(), e.name.as_str());
            if id.is_none() && has_prefix(&name, &chars_of(stems[s].as_str())) && contains_seq_exec(
                &name,
                &chars_of(".attempt-"),
            ) && has_suffix(&name, &chars_of(".prompt.md")) {
                assert(malformed_prompt(sv[s as int], name@));
                let mut m = chars_of("prompt attempt name is malformed, non-canonical, or exhausted: ");
                append_chars(&mut m, &name);
                proof {
                    lemma_prompt_scan_error_sticks(entries@, sv, i as int + 1);
                }
                return Err(InspectError::Safety(string_of(&m)));
            }
            attempts.push(id);
            s = s + 1;
        }
        let ghost old_counts = counts@;
        let ghost old_maxima = maxima@;
        let mut j: usize = 0;
        while j < n
            invariant
                j <= n == counts@.len() == maxima@.len() == attempts@.len() == sv.len(),
                old_counts.len() == n && old_maxima.len() == n,
                i < entries.len(),
                forall|q: int| 0 <= q < n ==> old_counts[q] <= i,
                forall|q: int| 0 <= q < n ==> #[trigger] attempts@[q] == prompt_attempt_identity_spec(sv[q], name@),
                forall|q: int| j <= q < n ==> #[trigger] counts@[q] == old_counts[q],
                forall|q: int| j <= q < n ==> #[trigger] maxima@[q] == old_maxima[q],
                forall|q: int| 0 <= q < j ==> #[trigger] counts@[q] == old_counts[q] + (if attempts@[q] is Some {
                    1int
                } else {
                    0int
                }),
                forall|q: int| 0 <= q < j ==> #[trigger] maxima@[q] == match attempts@[q] {
                    Some(a) => raise_maximum(old_maxima[q], a),
                    None => old_maxima[q],
                },
            decreases n - j,
        {
            match attempts[j] {
                Some(a) => {
                    let c = counts[j];
                    counts.set(j, c + 1);
                    let m = match maxima[j] {
                        Some(x) => Some(
                            if x < a {
                                a
                            } else {
                                x
                            },
                        ),
                        None => Some(a),
                    };
                    maxima.set(j, m);
                },
                None => {},
            }
            j = j + 1;
        }
        proof {
            let (pc, pm) = prompt_scan(prev, sv)->Ok_0;
            assert(!(exists|k: int| 0 <= k < sv.len() && malformed_prompt(#[trigger] sv[k], e.name@)));
            let (nc, nm) = count_prompt(pc, pm, sv, e.name@);
            assert(prompt_scan(entries@.take(i + 1), sv) == Ok::<(Seq<nat>, Seq<Option<u32>>), Seq<char>>((nc, nm)));
            assert(nm =~= maxima@);
            assert forall|q: int| 0 <= q < n implies nc[q] == #[trigger] counts@[q] as nat by {
                assert(pc[q] == old_counts[q] as nat);
            }
        }
        i = i + 1;
    }
    assert(entries@.take(entries.len() as int) =~= entries@);
    let ghost sc = prompt_scan(entries@, sv)->Ok_0.0;
    let mut q: usize = 0;
    while q < n
        invariant
            q <= n == counts@.len() == maxima@.len() == sv.len() == step_names.len(),
            sc.len() == n,
            sv == string_seq(stems@),
            prompt_scan(entries@, sv) is Ok,
            prompt_scan(entries@, sv)->Ok_0 == (sc, maxima@),
            forall|j: int| 0 <= j < n ==> sc[j] == #[trigger] counts@[j] as nat,
            first_skipping(sc, maxima@, q as int) is None,
        decreases n - q,
    {
        let skipped = match maxima[q] {
            Some(x) => counts[q] != x as usize,
            None => false,
        };
        assert(skipped == skips_attempt(sc[q as int], maxima@[q as int]));
        if skipped {
            assert(first_skipping(sc, maxima@, q + 1) == Some(q as int));
            proof {
                lemma_first_skipping_sticks(sc, maxima@, q as int + 1, n as int);
            }
            let mut m = chars_of("prompt attempt sequence for ");
            append_chars(&mut m, &chars_of(step_names[q].as_str()));
            append_chars(&mut m, &chars_of(" contains a skipped attempt"));
            assert(string_seq(step_names@)[q as int] == step_names@[q as int]@);
            assert(m@ =~= "prompt attempt sequence for "@ + string_seq(step_names@)[q as int]
                + " contains a skipped attempt"@);
            assert(prompt_scan(entries@, sv) == Ok::<(Seq<nat>, Seq<Option<u32>>), Seq<char>>((sc, maxima@)));
            return Err(InspectError::Safety(string_of(&m)));
        }
        q = q + 1;
    }
    Ok(maxima)
}

proof fn lemma_prompt_scan_error_sticks(entries: Seq<InventoryEntry>, stems: Seq<Seq<char>>, i: int)
    requires
        0 <= i <= entries.len(),
        prompt_scan(entries.take(i), stems) is Err,
    ensures
        prompt_scan(entries, stems) == prompt_scan(entries.take(i), stems),
    decreases entries.len() - i,
{
    if i < entries.len() {
        assert(entries.take(i + 1).drop_last() =~= entries.take(i));
        lemma_prompt_scan_error_sticks(entries, stems, i + 1);
    } else {
        assert(entries.take(i) =~= entries);
    }
}

proof fn lemma_first_skipping_sticks(counts: Seq<nat>, maxima: Seq<Option<u32>>, q: int, n: int)
    requires
        0 <= q <= n,
        first_skipping(counts, maxima, q) is Some,
    ensures
        first_skipping(counts, maxima, n) == first_skipping(counts, maxima, q),
    decreases n - q,
{
    if q < n {
        lemma_first_skipping_sticks(counts, maxima, q + 1, n);
    }
}

/// What final evaluation authority the run has, as step inspection reads it.
#[derive(Debug, Clone, Copy, PartialEq, Eq, Structural)]
pub enum FinalEvaluationAuthority {
    NotRequired,
    Verified { attempt: u32 },
    Invalid,
}

/// The larger of the attempts that provider records and prompts prove, or 1.
pub open spec fn max_or_one(a: Option<u32>, b: Option<u32>) -> u32 {
    match (a, b) {
        (None, None) => 1,
        (Some(x), None) => x,
        (None, Some(y)) => y,
        (Some(x), Some(y)) => if x < y {
            y
        } else {
            x
        },
    }
}

/// The attempt that durable authority proves for a step, if any: for the evaluation steps
/// the verified final evaluation attempt (none where that authority is invalid), else the
/// highest attempt that provider records or prompts prove, or 1.
pub open spec fn durable_attempt_spec(
    evaluation_step: bool,
    authority: FinalEvaluationAuthority,
    provider_max: Option<u32>,
    prompt_max: Option<u32>,
) -> Option<u32> {
    if evaluation_step {
        match authority {
            FinalEvaluationAuthority::Verified { attempt } => Some(attempt),
            FinalEvaluationAuthority::Invalid => None,
            FinalEvaluationAuthority::NotRequired => Some(max_or_one(provider_max, prompt_max)),
        }
    } else {
        Some(max_or_one(provider_max, prompt_max))
    }
}

fn durable_attempt(
    evaluation_step: bool,
    authority: FinalEvaluationAuthority,
    provider_max: Option<u32>,
    prompt_max: Option<u32>,
) -> (r: Option<u32>)
    ensures
        r == durable_attempt_spec(evaluation_step, authority, provider_max, prompt_max),
{
    if evaluation_step {
        match authority {
            FinalEvaluationAuthority::Verified { attempt } => {
                return Some(attempt);
            },
            FinalEvaluationAuthority::Invalid => {
                return None;
            },
            FinalEvaluationAuthority::NotRequired => {},
        }
    }
    Some(
        match (provider_max, prompt_max) {
            (None, None) => 1,
            (Some(x), None) => x,
            (None, Some(y)) => y,
            (Some(x), Some(y)) => if x < y {
                y
            } else {
                x
            },
        },
    )
}

/// What follows the last `.` of a name, if it has one.
pub open spec fn after_last_dot(s: Seq<char>) -> Option<Seq<char>>
    decreases s.len(),
{
    if s.len() == 0 {
        None
    } else if s.last() == '.' {
        Some(seq![])
    } else {
        match after_last_dot(s.drop_last()) {
            Some(t) => Some(t.push(s.last())),
            None => None,
        }
    }
}

/// `Path::file_name` on Unix: the last component once empty and `.` components are
/// dropped, unless there is none or it is `..`.
pub open spec fn path_file_name(path: Seq<char>) -> Option<Seq<char>> {
    let kept = kept_components(split_char(path, '/'));
    if kept.len() == 0 || kept.last() == seq!['.', '.'] {
        None
    } else {
        Some(kept.last())
    }
}

/// `Path::extension` of a path, read as UTF-8, or empty: as its documentation states,
/// nothing without a file name, without a `.` in it, or where the name's only `.` is its
/// first character; otherwise what follows the name's last `.`.
pub open spec fn path_extension(path: Seq<char>) -> Seq<char> {
    match path_file_name(path) {
        None => seq![],
        Some(name) => if name[0] == '.' && after_last_dot(name.skip(1)) is None {
            seq![]
        } else {
            match after_last_dot(name) {
                Some(ext) => ext,
                None => seq![],
            }
        },
    }
}

/// `std::path::Path::extension`, its result taken as UTF-8 or else empty; the contract is
/// the behaviour that the method's documentation gives for Unix paths.
#[verifier::external_body]
fn extension_of(path: &str) -> (r: String)
    ensures
        r@ == path_extension(path@),
{
    std::path::Path::new(path).extension().and_then(|value| value.to_str()).unwrap_or("").to_string()
}

/// One entry of a step's artifact history: attempt, path, extension, classification.
pub struct HistoryView {
    pub attempt: u32,
    pub path: Seq<char>,
    pub extension: Seq<char>,
    pub classification: EvidenceClassification,
}

pub open spec fn history_view(h: ArtifactHistoryInspection) -> HistoryView {
    HistoryView { attempt: h.attempt, path: h.path@, extension: h.extension@, classification: h.classification }
}

pub open spec fn histories_view(v: Seq<ArtifactHistoryInspection>) -> Seq<HistoryView> {
    v.map_values(|h: ArtifactHistoryInspection| history_view(h))
}

/// What a step inspection fixes before it walks the history: the step's name as reports
/// spell it, its file stem, the artifact it selects with the digest it records, the bytes
/// found at that artifact (none where it is missing), whether final evaluation authority
/// is invalid for it, and the attempt durable authority proves.
pub struct StepContext {
    pub step_name: Seq<char>,
    pub stem: Seq<char>,
    pub selected: Option<Seq<char>>,
    pub digest: Option<Seq<char>>,
    pub bytes: Option<Seq<u8>>,
    pub invalid_final: bool,
    pub durable: Option<u32>,
}

pub open spec fn bytes_view(b: Option<Vec<u8>>) -> Option<Seq<u8>> {
    match b {
        Some(b) => Some(b@),
        None => None,
    }
}

pub open spec fn step_context(
    step_name: Seq<char>,
    stem: Seq<char>,
    selected: Option<Seq<char>>,
    digest: Option<Seq<char>>,
    bytes: Option<Seq<u8>>,
    evaluation_step: bool,
    authority: FinalEvaluationAuthority,
    provider_max: Option<u32>,
    prompt_max: Option<u32>,
) -> StepContext {
    StepContext {
        step_name,
        stem,
        selected,
        digest,
        bytes,
        invalid_final: evaluation_step && authority == FinalEvaluationAuthority::Invalid,
        durable: durable_attempt_spec(evaluation_step, authority, provider_max, prompt_max),
    }
}

pub open spec fn read_digest(bytes: Option<Seq<u8>>) -> Option<Seq<char>> {
    match bytes {
        Some(b) => Some(digest_hex_spec(b)),
        None => None,
    }
}

pub open spec fn cannot_be_current(step: Seq<char>) -> Seq<char> {
    step + " selected artifact cannot be current because final evaluation authority is invalid"@
}

pub open spec fn attempt_mismatch(step: Seq<char>, attempt: u32, durable: u32) -> Seq<char> {
    step + " selects artifact attempt "@ + decimal(attempt as nat) + " but durable authority proves attempt "@
        + decimal(durable as nat)
}

pub open spec fn fixed_name_mismatch(step: Seq<char>, durable: u32) -> Seq<char> {
    step + " durable attempt "@ + decimal(durable as nat) + " still selects the historical fixed-name artifact"@
}

pub open spec fn tampered_message(step: Seq<char>) -> Seq<char> {
    "current "@ + step + " role artifact is tampered"@
}

pub open spec fn inconsistent_message(step: Seq<char>) -> Seq<char> {
    "current "@ + step + " role artifact is missing, unrecognized, or inconsistent"@
}

/// A listed role artifact's history entry, with the ambiguities and the integrity
/// messages it raises.
pub open spec fn listed_entry(ctx: StepContext, path: Seq<char>) -> (HistoryView, Seq<Seq<char>>, Seq<Seq<char>>) {
    let (attempt, extension) = role_artifact_identity_spec(ctx.stem, path)->0;
    let is_selected = ctx.selected == Some(path);
    let first = if is_selected {
        match ctx.digest {
            Some(d) => classify_read_spec(read_digest(ctx.bytes), d),
            None => EvidenceClassification::Tampered,
        }
    } else {
        EvidenceClassification::Historical
    };
    let c1 = if first == EvidenceClassification::Verified {
        EvidenceClassification::Current
    } else {
        first
    };
    let (c2, a1) = if c1 == EvidenceClassification::Current && ctx.invalid_final {
        (EvidenceClassification::Ambiguous, seq![cannot_be_current(ctx.step_name)])
    } else {
        (c1, Seq::<Seq<char>>::empty())
    };
    let (c3, a2) = match ctx.durable {
        Some(d) => if is_selected && attempt != d {
            (
                if c2 == EvidenceClassification::Current {
                    EvidenceClassification::Ambiguous
                } else {
                    c2
                },
                a1.push(
                    if attempt == 1 && d >= 2 {
                        fixed_name_mismatch(ctx.step_name, d)
                    } else {
                        attempt_mismatch(ctx.step_name, attempt, d)
                    },
                ),
            )
        } else {
            (c2, a1)
        },
        None => (c2, a1),
    };
    let m = if c3 == EvidenceClassification::Tampered {
        seq![tampered_message(ctx.step_name)]
    } else {
        Seq::<Seq<char>>::empty()
    };
    (HistoryView { attempt, path, extension, classification: c3 }, a2, m)
}

/// The history, ambiguities and messages of the listed artifacts, in listing order.
pub open spec fn listed_entries(ctx: StepContext, artifacts: Seq<Seq<char>>) -> (
    Seq<HistoryView>,
    Seq<Seq<char>>,
    Seq<Seq<char>>,
)
    decreases artifacts.len(),
{
    if artifacts.len() == 0 {
        (seq![], seq![], seq![])
    } else {
        let (h, a, m) = listed_entries(ctx, artifacts.drop_last());
        let (e, a1, m1) = listed_entry(ctx, artifacts.last());
        (h.push(e), a + a1, m + m1)
    }
}

/// The entry of a selected artifact that the listing lacks, its ambiguities and
/// messages, and whether it adds to the count of the step's history.
pub open spec fn unlisted_selected(ctx: StepContext, path: Seq<char>) -> (
    HistoryView,
    Seq<Seq<char>>,
    Seq<Seq<char>>,
    bool,
) {
    let verification = classify_read_spec(
        read_digest(ctx.bytes),
        match ctx.digest {
            Some(d) => d,
            None => Seq::<char>::empty(),
        },
    );
    let identity = role_artifact_identity_spec(ctx.stem, path);
    let (attempt, extension, c0) = match identity {
        Some((a, e)) => if verification == EvidenceClassification::Verified {
            (a, e, EvidenceClassification::Current)
        } else if verification == EvidenceClassification::Missing {
            (a, e, EvidenceClassification::Missing)
        } else {
            (a, e, EvidenceClassification::Tampered)
        },
        None => (
            match ctx.durable {
                Some(d) => d,
                None => 1u32,
            },
            path_extension(path),
            EvidenceClassification::Tampered,
        ),
    };
    let (c1, a1) = if c0 == EvidenceClassification::Current && ctx.invalid_final {
        (EvidenceClassification::Ambiguous, seq![cannot_be_current(ctx.step_name)])
    } else {
        (c0, Seq::<Seq<char>>::empty())
    };
    let (c2, a2) = match ctx.durable {
        Some(d) => if attempt != d {
            (
                if c1 == EvidenceClassification::Current {
                    EvidenceClassification::Ambiguous
                } else {
                    c1
                },
                a1.push(attempt_mismatch(ctx.step_name, attempt, d)),
            )
        } else {
            (c1, a1)
        },
        None => (c1, a1),
    };
    let m = if c2 != EvidenceClassification::Current {
        seq![inconsistent_message(ctx.step_name)]
    } else {
        Seq::<Seq<char>>::empty()
    };
    (
        HistoryView { attempt, path, extension, classification: c2 },
        a2,
        m,
        identity is None || c2 == EvidenceClassification::Missing,
    )
}

/// The order of a history: by attempt, then by path.
pub open spec fn history_lt(a: HistoryView, b: HistoryView) -> bool {
    a.attempt < b.attempt || (a.attempt == b.attempt && lex_lt(a.path, b.path))
}

pub open spec fn history_sorted(v: Seq<HistoryView>) -> bool {
    forall|i: int, j: int| 0 <= i < j < v.len() ==> history_lt(#[trigger] v[i], #[trigger] v[j])
}

pub open spec fn same_entries(a: Seq<HistoryView>, b: Seq<HistoryView>) -> bool {
    forall|x: HistoryView| #![trigger a.contains(x)] #![trigger b.contains(x)] a.contains(x) <==> b.contains(x)
}

pub open spec fn distinct_paths(v: Seq<HistoryView>) -> bool {
    forall|i: int, j: int| 0 <= i < j < v.len() ==> (#[trigger] v[i]).path != (#[trigger] v[j]).path
}

/// A history put in order: the ordered sequence of the same entries.
pub open spec fn sort_history(v: Seq<HistoryView>) -> Seq<HistoryView> {
    choose|s: Seq<HistoryView>| history_sorted(s) && same_entries(s, v)
}

/// The position of the last entry whose path the step does not select.
pub open spec fn last_unselected(s: Seq<HistoryView>, selected: Option<Seq<char>>) -> Option<int>
    decreases s.len(),
{
    if s.len() == 0 {
        None
    } else if Some(s.last().path) != selected {
        Some(s.len() - 1)
    } else {
        last_unselected(s.drop_last(), selected)
    }
}

/// The history kept of an ordered one: past the cap, the last entry that the step does
/// not select is dropped (or, where there is none, the history is cut at the cap).
pub open spec fn capped_history(sorted: Seq<HistoryView>, selected: Option<Seq<char>>) -> Seq<HistoryView> {
    if sorted.len() <= MAX_ARTIFACT_HISTORY_PER_STEP {
        sorted
    } else {
        match last_unselected(sorted, selected) {
            Some(p) => sorted.remove(p),
            None => sorted.take(MAX_ARTIFACT_HISTORY_PER_STEP as int),
        }
    }
}

/// A step's artifact history report, its ambiguities, its integrity messages, and how
/// many entries it adds to the history count beyond the listing.
pub open spec fn step_history_spec(ctx: StepContext, artifacts: Seq<Seq<char>>) -> (
    Seq<HistoryView>,
    Seq<Seq<char>>,
    Seq<Seq<char>>,
    nat,
) {
    let (h, a, m) = listed_entries(ctx, artifacts);
    match ctx.selected {
        Some(p) => if !artifacts.contains(p) {
            let (u, ua, um, counted) = unlisted_selected(ctx, p);
            (
                capped_history(sort_history(h.push(u)), ctx.selected),
                a + ua,
                m + um,
                if counted {
                    1nat
                } else {
                    0nat
                },
            )
        } else {
            (capped_history(sort_history(h), ctx.selected), a, m, 0nat)
        },
        None => (capped_history(sort_history(h), ctx.selected), a, m, 0nat),
    }
}

/// The values a step inspection reads, held for its helpers.
struct StepFacts<'a> {
    step_name: &'a str,
    stem: &'a str,
    selected: &'a Option<String>,
    digest: &'a Option<String>,
    bytes: &'a Option<Vec<u8>>,
    invalid_final: bool,
    durable: Option<u32>,
}

spec fn facts_view(f: StepFacts) -> StepContext {
    StepContext {
        step_name: f.step_name@,
        stem: f.stem@,
        selected: opt_view(*f.selected),
        digest: opt_view(*f.digest),
        bytes: bytes_view(*f.bytes),
        invalid_final: f.invalid_final,
        durable: f.durable,
    }
}

fn concat3(a: &Vec<char>, b: &Vec<char>, c: &Vec<char>) -> (r: String)
    ensures
        r@ == a@ + b@ + c@,
{
    let mut m: Vec<char> = Vec::new();
    append_chars(&mut m, a);
    append_chars(&mut m, b);
    append_chars(&mut m, c);
    assert(m@ =~= a@ + b@ + c@);
    string_of(&m)
}

fn cannot_be_current_exec(step: &str) -> (r: String)
    ensures
        r@ == cannot_be_current(step@),
{
    concat3(
        &chars_of(step),
        &chars_of(" selected artifact cannot be current because final evaluation authority is invalid"),
        &Vec::new(),
    )
}

fn attempt_mismatch_exec(step: &str, attempt: u32, durable: u32) -> (r: String)
    ensures
        r@ == attempt_mismatch(step@, attempt, durable),
{
    let mut m = chars_of(step);
    append_chars(&mut m, &chars_of(" selects artifact attempt "));
    append_chars(&mut m, &decimal_exec(attempt as u64));
    append_chars(&mut m, &chars_of(" but durable authority proves attempt "));
    append_chars(&mut m, &decimal_exec(durable as u64));
    string_of(&m)
}

fn fixed_name_mismatch_exec(step: &str, durable: u32) -> (r: String)
    ensures
        r@ == fixed_name_mismatch(step@, durable),
{
    let mut m = chars_of(step);
    append_chars(&mut m, &chars_of(" durable attempt "));
    append_chars(&mut m, &decimal_exec(durable as u64));
    append_chars(&mut m, &chars_of(" still selects the historical fixed-name artifact"));
    string_of(&m)
}

fn classify_selected(bytes: &Option<Vec<u8>>, expected: &str) -> (r: EvidenceClassification)
    ensures
        r == classify_read_spec(read_digest(bytes_view(*bytes)), expected@),
{
    match bytes {
        Some(b) => classify_digest(Some(b.as_slice()), expected),
        None => classify_digest(None, expected),
    }
}

fn is_selected_path(selected: &Option<String>, path: &String) -> (r: bool)
    ensures
        r == (opt_view(*selected) == Some(path@)),
{
    match selected {
        Some(s) => seq_eq(&chars_of(s.as_str()), &chars_of(path.as_str())),
        None => false,
    }
}

fn listed_entry_exec(f: &StepFacts, path: &String) -> (r: (ArtifactHistoryInspection, Vec<String>, Vec<String>))
    requires
        role_artifact_identity_spec(f.stem@, path@) is Some,
    ensures
        ({
            let (e, a, m) = listed_entry(facts_view(*f), path@);
            &&& history_view(r.0) == e
            &&& string_seq(r.1@) == a
            &&& string_seq(r.2@) == m
        }),
{
    let identity = role_artifact_identity(f.stem, path.as_str());
    let (attempt, extension) = identity.unwrap();
    let is_selected = is_selected_path(f.selected, path);
    let first = if is_selected {
        match f.digest {
            Some(d) => classify_selected(f.bytes, d.as_str()),
            None => EvidenceClassification::Tampered,
        }
    } else {
        EvidenceClassification::Historical
    };
    let c1 = if first == EvidenceClassification::Verified {
        EvidenceClassification::Current
    } else {
        first
    };
    let mut ambiguities: Vec<String> = Vec::new();
    let c2 = if c1 == EvidenceClassification::Current && f.invalid_final {
        ambiguities.push(cannot_be_current_exec(f.step_name));
        EvidenceClassification::Ambiguous
    } else {
        c1
    };
    let c3 = match f.durable {
        Some(d) => if is_selected && attempt != d {
            let text = if attempt == 1 && d >= 2 {
                fixed_name_mismatch_exec(f.step_name, d)
            } else {
                attempt_mismatch_exec(f.step_name, attempt, d)
            };
            ambiguities.push(text);
            if c2 == EvidenceClassification::Current {
                EvidenceClassification::Ambiguous
            } else {
                c2
            }
        } else {
            c2
        },
        None => c2,
    };
    let mut messages: Vec<String> = Vec::new();
    if c3 == EvidenceClassification::Tampered {
        messages.push(concat3(&chars_of("current "), &chars_of(f.step_name), &chars_of(" role artifact is tampered")));
    }
    let ghost spec_entry = listed_entry(facts_view(*f), path@);
    assert(string_seq(ambiguities@) =~= spec_entry.1);
    assert(string_seq(messages@) =~= spec_entry.2);
    (ArtifactHistoryInspection { attempt, path: path.clone(), extension, classification: c3 }, ambiguities, messages)
}

fn unlisted_selected_exec(f: &StepFacts, path: &String) -> (r: (ArtifactHistoryInspection, Vec<String>, Vec<String>, bool))
    ensures
        ({
            let (e, a, m, counted) = unlisted_selected(facts_view(*f), path@);
            &&& history_view(r.0) == e
            &&& string_seq(r.1@) == a
            &&& string_seq(r.2@) == m
            &&& r.3 == counted
        }),
{
    let expected = match f.digest {
        Some(d) => d.clone(),
        None => String::new(),
    };
    let verification = classify_selected(f.bytes, expected.as_str());
    let identity = role_artifact_identity(f.stem, path.as_str());
    let recognized = identity.is_some();
    let (attempt, extension, c0) = match identity {
        Some((a, e)) => if verification == EvidenceClassification::Verified {
            (a, e, EvidenceClassification::Current)
        } else if verification == EvidenceClassification::Missing {
            (a, e, EvidenceClassification::Missing)
        } else {
            (a, e, EvidenceClassification::Tampered)
        },
        None => (
            match f.durable {
                Some(d) => d,
                None => 1u32,
            },
            extension_of(path.as_str()),
            EvidenceClassification::Tampered,
        ),
    };
    let mut ambiguities: Vec<String> = Vec::new();
    let c1 = if c0 == EvidenceClassification::Current && f.invalid_final {
        ambiguities.push(cannot_be_current_exec(f.step_name));
        EvidenceClassification::Ambiguous
    } else {
        c0
    };
    let c2 = match f.durable {
        Some(d) => if attempt != d {
            ambiguities.push(attempt_mismatch_exec(f.step_name, attempt, d));
            if c1 == EvidenceClassification::Current {
                EvidenceClassification::Ambiguous
            } else {
                c1
            }
        } else {
            c1
        },
        None => c1,
    };
    let mut messages: Vec<String> = Vec::new();
    if c2 != EvidenceClassification::Current {
        messages.push(
            concat3(
                &chars_of("current "),
                &chars_of(f.step_name),
                &chars_of(" role artifact is missing, unrecognized, or inconsistent"),
            ),
        );
    }
    let ghost spec_entry = unlisted_selected(facts_view(*f), path@);
    assert(string_seq(ambiguities@) =~= spec_entry.1);
    assert(string_seq(messages@) =~= spec_entry.2);
    (
        ArtifactHistoryInspection { attempt, path: path.clone(), extension, classification: c2 },
        ambiguities,
        messages,
        !recognized || c2 == EvidenceClassification::Missing,
    )
}


proof fn lemma_history_irreflexive(a: HistoryView)
    ensures
        !history_lt(a, a),
{
    lemma_lex_irreflexive(a.path);
}

proof fn lemma_history_transitive(a: HistoryView, b: HistoryView, c: HistoryView)
    requires
        history_lt(a, b),
        history_lt(b, c),
    ensures
        history_lt(a, c),
{
    if a.attempt == b.attempt && b.attempt == c.attempt {
        lemma_lex_transitive(a.path, b.path, c.path);
    }
}

proof fn lemma_history_asymmetric(a: HistoryView, b: HistoryView)
    requires
        history_lt(a, b),
    ensures
        !history_lt(b, a),
{
    if a.attempt == b.attempt {
        lemma_lex_asymmetric(a.path, b.path);
    }
}

proof fn lemma_history_total(a: HistoryView, b: HistoryView)
    requires
        a.path != b.path,
    ensures
        history_lt(a, b) || history_lt(b, a),
{
    if a.attempt == b.attempt {
        lemma_lex_total(a.path, b.path);
    }
}

/// Two ordered histories with the same entries are equal.
proof fn lemma_history_sorted_unique(a: Seq<HistoryView>, b: Seq<HistoryView>)
    requires
        history_sorted(a),
        history_sorted(b),
        same_entries(a, b),
    ensures
        a == b,
    decreases a.len(),
{
    if a.len() == 0 {
        if b.len() > 0 {
            assert(b.contains(b[0]));
            assert(a.contains(b[0]));
        }
        assert(a =~= b);
    } else if b.len() == 0 {
        assert(a.contains(a[0]));
        assert(b.contains(a[0]));
    } else {
        assert(a.contains(a[0]));
        assert(b.contains(b[0]));
        let i = choose|i: int| 0 <= i < b.len() && b[i] == a[0];
        let j = choose|j: int| 0 <= j < a.len() && a[j] == b[0];
        if i > 0 {
            assert(history_lt(b[0], b[i]));
            if j > 0 {
                assert(history_lt(a[0], a[j]));
                lemma_history_asymmetric(a[0], b[0]);
            } else {
                lemma_history_irreflexive(a[0]);
            }
        }
        let ta = a.skip(1);
        let tb = b.skip(1);
        assert(history_sorted(ta)) by {
            assert forall|p: int, q: int| 0 <= p < q < ta.len() implies history_lt(#[trigger] ta[p], #[trigger] ta[q]) by {
                assert(ta[p] == a[p + 1] && ta[q] == a[q + 1]);
            }
        }
        assert(history_sorted(tb)) by {
            assert forall|p: int, q: int| 0 <= p < q < tb.len() implies history_lt(#[trigger] tb[p], #[trigger] tb[q]) by {
                assert(tb[p] == b[p + 1] && tb[q] == b[q + 1]);
            }
        }
        assert forall|x: HistoryView| #[trigger] ta.contains(x) <==> #[trigger] tb.contains(x) by {
            if ta.contains(x) {
                let p = choose|p: int| 0 <= p < ta.len() && ta[p] == x;
                assert(a[p + 1] == x);
                assert(history_lt(a[0], a[p + 1]));
                assert(b.contains(x));
                let q = choose|q: int| 0 <= q < b.len() && b[q] == x;
                if q == 0 {
                    lemma_history_irreflexive(x);
                }
                assert(tb[q - 1] == x);
            }
            if tb.contains(x) {
                let p = choose|p: int| 0 <= p < tb.len() && tb[p] == x;
                assert(b[p + 1] == x);
                assert(history_lt(b[0], b[p + 1]));
                assert(a.contains(x));
                let q = choose|q: int| 0 <= q < a.len() && a[q] == x;
                if q == 0 {
                    lemma_history_irreflexive(x);
                }
                assert(ta[q - 1] == x);
            }
        }
        lemma_history_sorted_unique(ta, tb);
        assert(a =~= seq![a[0]] + ta);
        assert(b =~= seq![b[0]] + tb);
    }
}

/// An ordered history with the entries of `v` is `sort_history(v)`.
proof fn lemma_sort_history_is(s: Seq<HistoryView>, v: Seq<HistoryView>)
    requires
        history_sorted(s),
        same_entries(s, v),
    ensures
        sort_history(v) == s,
{
    let t = sort_history(v);
    assert(history_sorted(t) && same_entries(t, v));
    assert(same_entries(t, s)) by {
        assert forall|x: HistoryView| #[trigger] t.contains(x) <==> #[trigger] s.contains(x) by {
            assert(t.contains(x) <==> v.contains(x));
            assert(s.contains(x) <==> v.contains(x));
        }
    }
    lemma_history_sorted_unique(t, s);
}

fn history_less(a: &ArtifactHistoryInspection, b: &ArtifactHistoryInspection) -> (r: bool)
    ensures
        r == history_lt(history_view(*a), history_view(*b)),
{
    a.attempt < b.attempt || (a.attempt == b.attempt && lex_less(
        &chars_of(a.path.as_str()),
        &chars_of(b.path.as_str()),
    ))
}

/// Puts a history whose paths are distinct in order.
fn sort_history_exec(v: Vec<ArtifactHistoryInspection>) -> (r: Vec<ArtifactHistoryInspection>)
    requires
        distinct_paths(histories_view(v@)),
    ensures
        history_sorted(histories_view(r@)),
        same_entries(histories_view(r@), histories_view(v@)),
{
    let ghost full = histories_view(v@);
    let mut rest = v;
    let mut out: Vec<ArtifactHistoryInspection> = Vec::new();
    while rest.len() > 0
        invariant
            distinct_paths(full),
            rest.len() <= full.len(),
            histories_view(rest@) == full.take(rest.len() as int),
            history_sorted(histories_view(out@)),
            same_entries(histories_view(out@), full.skip(rest.len() as int)),
        decreases rest.len(),
    {
        let ghost n = rest.len() as int;
        let ghost before = histories_view(rest@);
        let e = rest.pop().unwrap();
        proof {
            assert(histories_view(rest@) =~= full.take(n - 1)) by {
                assert forall|j: int| 0 <= j < n - 1 implies histories_view(rest@)[j] == full.take(n - 1)[j] by {
                    assert(before[j] == full[j]);
                }
            }
            assert(history_view(e) == full[n - 1]) by {
                assert(before[n - 1] == full[n - 1]);
            }
        }
        let ghost ov = histories_view(out@);
        let ghost ev = history_view(e);
        let mut k: usize = 0;
        while k < out.len() && history_less(&out[k], &e)
            invariant
                k <= out.len(),
                ov == histories_view(out@),
                ev == history_view(e),
                forall|j: int| 0 <= j < k ==> history_lt(#[trigger] ov[j], ev),
            decreases out.len() - k,
        {
            k = k + 1;
        }
        proof {
            assert forall|j: int| 0 <= j < ov.len() implies (#[trigger] ov[j]).path != ev.path by {
                assert(ov.contains(ov[j]));
                assert(full.skip(n).contains(ov[j]));
                let q = choose|q: int| 0 <= q < full.skip(n).len() && #[trigger] full.skip(n)[q] == ov[j];
                assert(full[n + q] == ov[j]);
                assert(full[n - 1].path != full[n + q].path);
            }
            if k < out.len() {
                assert(!history_lt(ov[k as int], ev));
                lemma_history_total(ov[k as int], ev);
            }
        }
        out.insert(k, e);
        let ghost nv = histories_view(out@);
        assert(nv =~= ov.insert(k as int, ev));
        assert forall|i: int, j: int| 0 <= i < j < nv.len() implies history_lt(#[trigger] nv[i], #[trigger] nv[j]) by {
            if j < k {
                assert(nv[i] == ov[i] && nv[j] == ov[j]);
            } else if j == k {
                assert(nv[i] == ov[i]);
            } else if i == k {
                assert(nv[j] == ov[j - 1]);
                if j - 1 > k {
                    assert(history_lt(ov[k as int], ov[j - 1]));
                    lemma_history_transitive(ev, ov[k as int], ov[j - 1]);
                }
            } else if i < k {
                assert(nv[i] == ov[i] && nv[j] == ov[j - 1]);
            } else {
                assert(nv[i] == ov[i - 1] && nv[j] == ov[j - 1]);
            }
        }
        assert forall|x: HistoryView| #[trigger] nv.contains(x) <==> #[trigger] full.skip(n - 1).contains(x) by {
            assert(full.skip(n - 1) =~= seq![ev] + full.skip(n));
            if nv.contains(x) {
                let i = choose|i: int| 0 <= i < nv.len() && nv[i] == x;
                if i < k {
                    assert(ov[i] == x);
                    assert(ov.contains(x));
                    assert(full.skip(n).contains(x));
                    let q = choose|q: int| 0 <= q < full.skip(n).len() && #[trigger] full.skip(n)[q] == x;
                    assert(full.skip(n - 1)[q + 1] == x);
                } else if i > k {
                    assert(ov[i - 1] == x);
                    assert(ov.contains(x));
                    assert(full.skip(n).contains(x));
                    let q = choose|q: int| 0 <= q < full.skip(n).len() && #[trigger] full.skip(n)[q] == x;
                    assert(full.skip(n - 1)[q + 1] == x);
                } else {
                    assert(full.skip(n - 1)[0] == x);
                }
            }
            if full.skip(n - 1).contains(x) {
                let q = choose|q: int| 0 <= q < full.skip(n - 1).len() && #[trigger] full.skip(n - 1)[q] == x;
                if q == 0 {
                    assert(nv[k as int] == x);
                } else {
                    assert(full.skip(n)[q - 1] == x);
                    assert(full.skip(n).contains(x));
                    assert(ov.contains(x));
                    let i = choose|i: int| 0 <= i < ov.len() && ov[i] == x;
                    if i < k {
                        assert(nv[i] == x);
                    } else {
                        assert(nv[i + 1] == x);
                    }
                }
            }
        }
    }
    assert(full.skip(0) =~= full);
    out
}

/// Drops, past the cap, the last entry that the step does not select, or cuts the
/// history at the cap.
fn cap_history(v: &mut Vec<ArtifactHistoryInspection>, selected: &Option<String>)
    ensures
        histories_view(final(v)@) == capped_history(histories_view(old(v)@), opt_view(*selected)),
{
    if v.len() > MAX_ARTIFACT_HISTORY_PER_STEP {
        let ghost s = histories_view(v@);
        let ghost sel = opt_view(*selected);
        let mut i: usize = v.len();
        let mut found: Option<usize> = None;
        assert(s.take(s.len() as int) =~= s);
        while found.is_none() && i > 0
            invariant
                i <= v.len(),
                s == histories_view(v@),
                sel == opt_view(*selected),
                match found {
                    Some(p) => p < v.len() && last_unselected(s, sel) == Some(p as int),
                    None => last_unselected(s, sel) == last_unselected(s.take(i as int), sel),
                },
            decreases i,
        {
            i = i - 1;
            assert(s.take(i + 1).drop_last() =~= s.take(i as int));
            assert(s.take(i + 1).last() == s[i as int]);
            let unselected = match selected {
                Some(p) => !seq_eq(&chars_of(v[i].path.as_str()), &chars_of(p.as_str())),
                None => true,
            };
            if unselected {
                found = Some(i);
            }
        }
        match found {
            Some(p) => {
                v.remove(p);
                assert(histories_view(v@) =~= s.remove(p as int));
            },
            None => {
                v.truncate(MAX_ARTIFACT_HISTORY_PER_STEP);
                assert(histories_view(v@) =~= s.take(MAX_ARTIFACT_HISTORY_PER_STEP as int));
            },
        }
    }
}

proof fn lemma_listed_paths(ctx: StepContext, artifacts: Seq<Seq<char>>)
    ensures
        listed_entries(ctx, artifacts).0.len() == artifacts.len(),
        forall|j: int| 0 <= j < artifacts.len() ==> (#[trigger] listed_entries(ctx, artifacts).0[j]).path == artifacts[j],
    decreases artifacts.len(),
{
    if artifacts.len() > 0 {
        lemma_listed_paths(ctx, artifacts.drop_last());
    }
}

/// The artifact history of one step: each listed role artifact (`artifacts`, the paths
/// that the step's listing retained, each a role artifact of `stem`) classified against
/// the step's selection and durable authority, the selected artifact added where the
/// listing lacks it, in order of attempt and path, capped. `selected_bytes` are the bytes
/// found at the selected artifact (`None` where it is missing). Ambiguities and integrity
/// messages are appended; the result holds the history and how many entries it adds to
/// the history count beyond the listing.
pub fn inspect_step_history(
    step_name: &str,
    stem: &str,
    artifact_path: &Option<String>,
    artifact_digest: &Option<String>,
    evaluation_step: bool,
    authority: FinalEvaluationAuthority,
    provider_max: Option<u32>,
    prompt_max: Option<u32>,
    artifacts: &Vec<String>,
    selected_bytes: &Option<Vec<u8>>,
    ambiguities: &mut Vec<String>,
    messages: &mut Vec<String>,
) -> (r: (Vec<ArtifactHistoryInspection>, usize))
    requires
        distinct_strings(string_seq(artifacts@)),
        forall|i: int| 0 <= i < artifacts.len() ==> role_artifact_identity_spec(stem@, #[trigger] artifacts@[i]@) is Some,
    ensures
        ({
            let ctx = step_context(
                step_name@,
                stem@,
                opt_view(*artifact_path),
                opt_view(*artifact_digest),
                bytes_view(*selected_bytes),
                evaluation_step,
                authority,
                provider_max,
                prompt_max,
            );
            let (h, a, m, extra) = step_history_spec(ctx, string_seq(artifacts@));
            &&& histories_view(r.0@) == h
            &&& string_seq(final(ambiguities)@) == string_seq(old(ambiguities)@) + a
            &&& string_seq(final(messages)@) == string_seq(old(messages)@) + m
            &&& r.1 == extra
        }),
{
    let durable = durable_attempt(evaluation_step, authority, provider_max, prompt_max);
    let invalid_final = evaluation_step && match authority {
        FinalEvaluationAuthority::Invalid => true,
        _ => false,
    };
    let facts = StepFacts {
        step_name,
        stem,
        selected: artifact_path,
        digest: artifact_digest,
        bytes: selected_bytes,
        invalid_final,
        durable,
    };
    let ghost ctx = facts_view(facts);
    let ghost av = string_seq(artifacts@);
    let ghost a0 = string_seq(ambiguities@);
    let ghost m0 = string_seq(messages@);
    let mut history: Vec<ArtifactHistoryInspection> = Vec::new();
    let mut k: usize = 0;
    while k < artifacts.len()
        invariant
            k <= artifacts.len(),
            av == string_seq(artifacts@),
            ctx == facts_view(facts),
            facts.stem@ == stem@,
            forall|i: int| 0 <= i < artifacts.len() ==> role_artifact_identity_spec(stem@, #[trigger] artifacts@[i]@) is Some,
            histories_view(history@) == listed_entries(ctx, av.take(k as int)).0,
            string_seq(ambiguities@) == a0 + listed_entries(ctx, av.take(k as int)).1,
            string_seq(messages@) == m0 + listed_entries(ctx, av.take(k as int)).2,
        decreases artifacts.len() - k,
    {
        assert(role_artifact_identity_spec(stem@, artifacts@[k as int]@) is Some);
        let (e, mut amb, mut msg) = listed_entry_exec(&facts, &artifacts[k]);
        let ghost prev = av.take(k as int);
        assert(av.take(k + 1).drop_last() =~= prev);
        assert(av.take(k + 1).last() == artifacts@[k as int]@);
        let ghost ha = string_seq(ambiguities@);
        let ghost hm = string_seq(messages@);
        let ghost sa = string_seq(amb@);
        let ghost sm = string_seq(msg@);
        ambiguities.append(&mut amb);
        messages.append(&mut msg);
        assert(string_seq(ambiguities@) =~= ha + sa);
        assert(string_seq(messages@) =~= hm + sm);
        assert(a0 + listed_entries(ctx, prev).1 + sa =~= a0 + (listed_entries(ctx, prev).1 + sa));
        assert(m0 + listed_entries(ctx, prev).2 + sm =~= m0 + (listed_entries(ctx, prev).2 + sm));
        let ghost hv = histories_view(history@);
        history.push(e);
        assert(histories_view(history@) =~= hv.push(history_view(e)));
        k = k + 1;
    }
    assert(av.take(artifacts.len() as int) =~= av);
    proof {
        lemma_listed_paths(ctx, av);
    }
    let ghost listed = listed_entries(ctx, av);
    let mut extra: usize = 0;
    match artifact_path {
        Some(p) => {
            if !seq_contains_string(artifacts, p) {
                let (u, mut amb, mut msg, counted) = unlisted_selected_exec(&facts, p);
                let ghost ha = string_seq(ambiguities@);
                let ghost hm = string_seq(messages@);
                let ghost sa = string_seq(amb@);
                let ghost sm = string_seq(msg@);
                ambiguities.append(&mut amb);
                messages.append(&mut msg);
                assert(string_seq(ambiguities@) =~= ha + sa);
                assert(string_seq(messages@) =~= hm + sm);
                assert(a0 + listed.1 + sa =~= a0 + (listed.1 + sa));
                assert(m0 + listed.2 + sm =~= m0 + (listed.2 + sm));
                let ghost hv = histories_view(history@);
                history.push(u);
                assert(histories_view(history@) =~= hv.push(history_view(u)));
                if counted {
                    extra = 1;
                }
            }
        },
        None => {},
    }
    let ghost full = histories_view(history@);
    assert(distinct_paths(full)) by {
        assert forall|i: int, j: int| 0 <= i < j < full.len() implies (#[trigger] full[i]).path != (#[trigger] full[j]).path by {
            if j < av.len() {
                assert(full[i] == listed.0[i] && full[j] == listed.0[j]);
            } else {
                assert(full[i] == listed.0[i]);
                assert(av[i] == full[i].path);
                assert(av.contains(av[i]));
            }
        }
    }
    let mut sorted = sort_history_exec(history);
    proof {
        lemma_sort_history_is(histories_view(sorted@), full);
    }
    cap_history(&mut sorted, artifact_path);
    (sorted, extra)
}


proof fn lemma_last_unselected(s: Seq<HistoryView>, selected: Option<Seq<char>>)
    ensures
        match last_unselected(s, selected) {
            Some(p) => 0 <= p < s.len() && Some(s[p].path) != selected && forall|q: int|
                p < q < s.len() ==> Some(#[trigger] s[q].path) == selected,
            None => forall|q: int| 0 <= q < s.len() ==> Some(#[trigger] s[q].path) == selected,
        },
    decreases s.len(),
{
    if s.len() > 0 {
        lemma_last_unselected(s.drop_last(), selected);
        match last_unselected(s.drop_last(), selected) {
            Some(p) => {
                assert forall|q: int| p < q < s.len() - 1 implies Some(#[trigger] s[q].path) == selected by {
                    assert(s[q] == s.drop_last()[q]);
                }
            },
            None => {
                assert forall|q: int| 0 <= q < s.len() - 1 implies Some(#[trigger] s[q].path) == selected by {
                    assert(s[q] == s.drop_last()[q]);
                }
            },
        }
    }
}

/// Capping a history whose paths are distinct never drops the entry that the step
/// selects: past the cap exactly one entry the step does not select is dropped.
pub proof fn lemma_cap_keeps_selected(s: Seq<HistoryView>, selected: Option<Seq<char>>)
    requires
        distinct_paths(s),
    ensures
        capped_history(s, selected).len() == if s.len() <= MAX_ARTIFACT_HISTORY_PER_STEP {
            s.len()
        } else {
            (s.len() - 1) as nat
        },
        forall|x: HistoryView| s.contains(x) && Some(x.path) == selected ==> #[trigger] capped_history(
            s,
            selected,
        ).contains(x),
{
    if s.len() > MAX_ARTIFACT_HISTORY_PER_STEP {
        lemma_last_unselected(s, selected);
        if last_unselected(s, selected) is None {
            assert(Some(s[0].path) == selected && Some(s[1].path) == selected);
            assert(s[0].path != s[1].path);
        }
        let p = last_unselected(s, selected)->0;
        let c = s.remove(p);
        assert forall|x: HistoryView| s.contains(x) && Some(x.path) == selected implies #[trigger] c.contains(x) by {
            let i = choose|i: int| 0 <= i < s.len() && s[i] == x;
            if i < p {
                assert(c[i] == x);
            } else if i > p {
                assert(c[i - 1] == x);
            }
        }
    }
}

} // verus!
