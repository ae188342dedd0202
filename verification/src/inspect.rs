//! Read-only, factual inspection of persisted loop authority: the names that artifacts
//! and prompts may have, how evidence is classified, and how the report is bounded.
use vstd::prelude::*;

use crate::digest::{digest_hex, digest_hex_spec};
use crate::number::{canonical_number, canonical_number_spec, decimal, decimal_exec};
use crate::text::{
    append_chars, chars_of, has_prefix, insert_sorted, is_alnum, join_chars, lex_less, lex_lt,
    opt_view, seq_eq, sort_unique, sorted_members, sorted_strictly, split_once, split_once_exec, starts_with, string_of, string_seq,
    strip_prefix, strip_prefix_exec, strip_suffix, strip_suffix_exec, trim, trim_exec,
};

verus! {

pub const MAX_PROVIDER_ATTEMPTS: usize = 64;

pub const MAX_PROVIDER_EXCHANGES_PER_ATTEMPT: usize = 32;

pub const MAX_ARTIFACT_HISTORY_PER_STEP: usize = 32;

pub const MAX_EVALUATION_PREFIX: usize = 64;

pub const MAX_INSPECTION_MESSAGES: usize = 64;

/// Whether an inspection found nothing to report.
#[derive(Debug, Clone, Copy, PartialEq, Eq, Structural)]
pub enum InspectionIntegrity {
    Verified,
    Degraded,
}

/// What a piece of evidence was found to be.
#[derive(Debug, Clone, Copy, PartialEq, Eq, Structural)]
pub enum EvidenceClassification {
    Current,
    Historical,
    Ambiguous,
    Missing,
    Tampered,
    Verified,
}

#[derive(Debug, Clone, PartialEq, Eq)]
pub struct InputDigestInspection {
    pub digest: String,
    pub path: String,
    pub verification: EvidenceClassification,
}

#[derive(Debug, Clone, PartialEq, Eq)]
pub struct ArtifactHistoryInspection {
    pub attempt: u32,
    pub path: String,
    pub extension: String,
    pub classification: EvidenceClassification,
}

#[derive(Debug, Clone, PartialEq, Eq)]
pub struct EvaluationPrefixInspection {
    pub path: String,
    pub classification: EvidenceClassification,
}

/// How much of each list the report holds, and how much it left out.
#[derive(Debug, Clone, PartialEq, Eq)]
pub struct InspectionBounds {
    pub provider_attempts_total: usize,
    pub provider_attempts_truncated: usize,
    pub provider_exchanges_total: usize,
    pub provider_exchanges_truncated: usize,
    pub artifact_history_total: usize,
    pub artifact_history_truncated: usize,
    pub evaluation_prefix_total: usize,
    pub evaluation_prefix_truncated: usize,
    pub integrity_messages_total: usize,
    pub integrity_messages_truncated: usize,
    pub ambiguity_messages_total: usize,
    pub ambiguity_messages_truncated: usize,
}

/// Why an inspection could not be made.
#[derive(Debug, Clone, PartialEq, Eq)]
pub enum InspectError {
    Safety(String),
    Schema(String),
    /// The run could not be opened; holds how the workspace failure displays.
    Workspace(String),
    /// The run file is not valid JSON; holds how the parse failure displays.
    Json(String),
    /// An I/O failure; holds how it displays.
    Io(String),
}

impl InspectError {
    /// The message, as the error displays.
    pub fn to_string(&self) -> (r: String)
        ensures
            r@ == match self {
                InspectError::Safety(m) => "unsafe loop inspection authority: "@ + m@,
                InspectError::Schema(m) => "invalid loop inspection schema: "@ + m@,
                InspectError::Workspace(m) => "could not open loop run: "@ + m@,
                InspectError::Json(m) => "invalid loop run JSON: "@ + m@,
                InspectError::Io(m) => "loop inspection I/O error: "@ + m@,
            },
    {
        match self {
            InspectError::Safety(m) => string_of(
                &join_chars(&chars_of("unsafe loop inspection authority: "), &chars_of(m.as_str())),
            ),
            InspectError::Schema(m) => string_of(
                &join_chars(&chars_of("invalid loop inspection schema: "), &chars_of(m.as_str())),
            ),
            InspectError::Workspace(m) => string_of(
                &join_chars(&chars_of("could not open loop run: "), &chars_of(m.as_str())),
            ),
            InspectError::Json(m) => string_of(&join_chars(&chars_of("invalid loop run JSON: "), &chars_of(m.as_str()))),
            InspectError::Io(m) => string_of(
                &join_chars(&chars_of("loop inspection I/O error: "), &chars_of(m.as_str())),
            ),
        }
    }
}

pub open spec fn is_run_id_char(c: char) -> bool {
    is_alnum(c) || c == '-' || c == '_'
}

/// A run ID: non-empty, not `.` or `..`, without surrounding whitespace, of ASCII
/// letters, digits, `-` and `_`.
pub open spec fn is_valid_run_id(run_id: Seq<char>) -> bool {
    &&& run_id.len() > 0
    &&& trim(run_id) == run_id
    &&& run_id != "."@
    &&& run_id != ".."@
    &&& forall|i: int| 0 <= i < run_id.len() ==> is_run_id_char(#[trigger] run_id[i])
}

fn all_run_id_chars(s: &Vec<char>) -> (r: bool)
    ensures
        r == forall|i: int| 0 <= i < s@.len() ==> is_run_id_char(#[trigger] s@[i]),
{
    let mut i: usize = 0;
    while i < s.len()
        invariant
            i <= s.len(),
            forall|j: int| 0 <= j < i ==> is_run_id_char(#[trigger] s@[j]),
        decreases s.len() - i,
    {
        let c = s[i];
        if !(('0' <= c && c <= '9') || ('a' <= c && c <= 'z') || ('A' <= c && c <= 'Z') || c == '-'
            || c == '_') {
            return false;
        }
        i = i + 1;
    }
    true
}

pub fn validate_run_id(run_id: &str) -> (r: Result<(), InspectError>)
    ensures
        r is Ok <==> is_valid_run_id(run_id@),
        r is Err ==> r == Err::<(), InspectError>(InspectError::Safety(r->Err_0->Safety_0))
            && r->Err_0->Safety_0@ == "invalid run ID; use only ASCII letters, numbers, '-' or '_'"@,
{
    let c = chars_of(run_id);
    if c.len() > 0 && seq_eq(&trim_exec(&c), &c) && !seq_eq(&c, &chars_of(".")) && !seq_eq(
        &c,
        &chars_of(".."),
    ) && all_run_id_chars(&c) {
        Ok(())
    } else {
        Err(
            InspectError::Safety(
                string_of(&chars_of("invalid run ID; use only ASCII letters, numbers, '-' or '_'")),
            ),
        )
    }
}

/// A canonical attempt number of a retried artifact: at least 2, at least three digits,
/// without further leading zeros.
pub open spec fn retry_number(s: Seq<char>) -> Option<u32> {
    match canonical_number_spec(s) {
        Some(n) => if n >= 2 {
            Some(n)
        } else {
            None
        },
        None => None,
    }
}

/// The attempt of a step's prompt file: `<stem>.prompt.md` is attempt 1,
/// `<stem>.attempt-NNN.prompt.md` is attempt NNN.
pub open spec fn prompt_attempt_identity_spec(stem: Seq<char>, name: Seq<char>) -> Option<u32> {
    if name == stem + ".prompt.md"@ {
        Some(1)
    } else {
        match strip_prefix(name, stem + ".attempt-"@) {
            None => None,
            Some(rest) => match strip_suffix(rest, ".prompt.md"@) {
                None => None,
                Some(attempt) => retry_number(attempt),
            },
        }
    }
}

fn retry_number_exec(s: &Vec<char>) -> (r: Option<u32>)
    ensures
        r == retry_number(s@),
{
    match canonical_number(s) {
        Some(n) => if n >= 2 {
            Some(n)
        } else {
            None
        },
        None => None,
    }
}

pub fn prompt_attempt_identity(stem: &str, name: &str) -> (r: Option<u32>)
    ensures
        r == prompt_attempt_identity_spec(stem@, name@),
{
    let stem = chars_of(stem);
    let name = chars_of(name);
    if seq_eq(&name, &join_chars(&stem, &chars_of(".prompt.md"))) {
        return Some(1);
    }
    match strip_prefix_exec(&name, &join_chars(&stem, &chars_of(".attempt-"))) {
        None => None,
        Some(rest) => match strip_suffix_exec(&rest, &chars_of(".prompt.md")) {
            None => None,
            Some(attempt) => retry_number_exec(&attempt),
        },
    }
}

/// A file extension: non-empty, of ASCII letters, digits, `_` and `-`.
pub open spec fn valid_extension_spec(extension: Seq<char>) -> bool {
    extension.len() > 0 && forall|i: int| 0 <= i < extension.len() ==> is_run_id_char(#[trigger] extension[i])
}

pub fn valid_extension(extension: &Vec<char>) -> (r: bool)
    ensures
        r == valid_extension_spec(extension@),
{
    extension.len() > 0 && all_run_id_chars(extension)
}

/// The attempt and extension of a step's role artifact: `artifacts/<stem>.<ext>` is
/// attempt 1, `artifacts/<stem>.attempt-NNN.<ext>` is attempt NNN.
pub open spec fn role_artifact_identity_spec(stem: Seq<char>, path: Seq<char>) -> Option<(u32, Seq<char>)> {
    match strip_prefix(path, "artifacts/"@) {
        None => None,
        Some(name) => match strip_prefix(name, stem) {
            None => None,
            Some(suffix) => {
                let first = match strip_prefix(suffix, "."@) {
                    Some(ext) => if !ext.contains('.') && valid_extension_spec(ext) {
                        Some((1u32, ext))
                    } else {
                        None
                    },
                    None => None,
                };
                if first is Some {
                    first
                } else {
                    match strip_prefix(suffix, ".attempt-"@) {
                        None => None,
                        Some(rest) => match split_once(rest, '.') {
                            None => None,
                            Some((attempt, ext)) => match retry_number(attempt) {
                                Some(n) => if !ext.contains('.') && valid_extension_spec(ext) {
                                    Some((n, ext))
                                } else {
                                    None
                                },
                                None => None,
                            },
                        },
                    }
                }
            },
        },
    }
}

fn contains_char(s: &Vec<char>, c: char) -> (r: bool)
    ensures
        r == s@.contains(c),
{
    let mut i: usize = 0;
    while i < s.len()
        invariant
            i <= s.len(),
            forall|j: int| 0 <= j < i ==> s@[j] != c,
        decreases s.len() - i,
    {
        if s[i] == c {
            return true;
        }
        i = i + 1;
    }
    false
}

pub fn role_artifact_identity(stem: &str, path: &str) -> (r: Option<(u32, String)>)
    ensures
        match r {
            Some((n, ext)) => role_artifact_identity_spec(stem@, path@) == Some((n, ext@)),
            None => role_artifact_identity_spec(stem@, path@) is None,
        },
{
    let name = match strip_prefix_exec(&chars_of(path), &chars_of("artifacts/")) {
        Some(n) => n,
        None => {
            return None;
        },
    };
    let suffix = match strip_prefix_exec(&name, &chars_of(stem)) {
        Some(s) => s,
        None => {
            return None;
        },
    };
    if let Some(ext) = strip_prefix_exec(&suffix, &chars_of(".")) {
        if !contains_char(&ext, '.') && valid_extension(&ext) {
            return Some((1, string_of(&ext)));
        }
    }
    let rest = match strip_prefix_exec(&suffix, &chars_of(".attempt-")) {
        Some(r) => r,
        None => {
            return None;
        },
    };
    let (attempt, ext) = match split_once_exec(&rest, '.') {
        Some(p) => p,
        None => {
            return None;
        },
    };
    match retry_number_exec(&attempt) {
        Some(n) => if !contains_char(&ext, '.') && valid_extension(&ext) {
            Some((n, string_of(&ext)))
        } else {
            None
        },
        None => None,
    }
}

/// The SHA-256 digest of evidence bytes, in lowercase hexadecimal.
pub fn digest_bytes(bytes: &[u8]) -> (r: String)
    ensures
        r@ == digest_hex_spec(bytes@),
{
    digest_hex(bytes)
}

/// What the bytes read at an evidence path make of it.
pub open spec fn classify_read_spec(actual_digest: Option<Seq<char>>, expected: Seq<char>) -> EvidenceClassification {
    match actual_digest {
        None => EvidenceClassification::Missing,
        Some(d) => if d == expected {
            EvidenceClassification::Verified
        } else {
            EvidenceClassification::Tampered
        },
    }
}

/// Classifies evidence from the bytes found at its path (`None` where the file is missing)
/// against the digest that authority recorded.
pub fn classify_digest(found: Option<&[u8]>, expected: &str) -> (r: EvidenceClassification)
    ensures
        r == classify_read_spec(
            match found {
                Some(b) => Some(digest_hex_spec(b@)),
                None => None,
            },
            expected@,
        ),
{
    match found {
        None => EvidenceClassification::Missing,
        Some(bytes) => if seq_eq(&chars_of(digest_bytes(bytes).as_str()), &chars_of(expected)) {
            EvidenceClassification::Verified
        } else {
            EvidenceClassification::Tampered
        },
    }
}

/// The integrity of an inspection: verified exactly when it reports no message.
pub fn inspection_integrity(integrity_messages: usize, ambiguity_messages: usize) -> (r: InspectionIntegrity)
    ensures
        r == (if integrity_messages == 0 && ambiguity_messages == 0 {
            InspectionIntegrity::Verified
        } else {
            InspectionIntegrity::Degraded
        }),
{
    if integrity_messages == 0 && ambiguity_messages == 0 {
        InspectionIntegrity::Verified
    } else {
        InspectionIntegrity::Degraded
    }
}

pub open spec fn kept_messages(total: usize) -> usize {
    if total < MAX_INSPECTION_MESSAGES {
        total
    } else {
        MAX_INSPECTION_MESSAGES
    }
}

/// The bounds of a report from the totals found and the items it retained; artifact
/// history counts at least what it retained, and message lists keep their first 64.
pub fn inspection_bounds(
    provider_attempts_total: usize,
    provider_attempts_retained: usize,
    provider_exchanges_total: usize,
    provider_exchanges_retained: usize,
    artifact_history_total: usize,
    artifact_history_retained: usize,
    evaluation_prefix_total: usize,
    evaluation_prefix_retained: usize,
    integrity_messages_total: usize,
    ambiguity_messages_total: usize,
) -> (r: InspectionBounds)
    requires
        provider_attempts_retained <= provider_attempts_total,
        provider_exchanges_retained <= provider_exchanges_total,
        evaluation_prefix_retained <= evaluation_prefix_total,
    ensures
        r.provider_attempts_total == provider_attempts_total,
        r.provider_attempts_truncated == provider_attempts_total - provider_attempts_retained,
        r.provider_exchanges_total == provider_exchanges_total,
        r.provider_exchanges_truncated == provider_exchanges_total - provider_exchanges_retained,
        r.artifact_history_total == (if artifact_history_total < artifact_history_retained {
            artifact_history_retained
        } else {
            artifact_history_total
        }),
        r.artifact_history_truncated == r.artifact_history_total - artifact_history_retained,
        r.evaluation_prefix_total == evaluation_prefix_total,
        r.evaluation_prefix_truncated == evaluation_prefix_total - evaluation_prefix_retained,
        r.integrity_messages_total == integrity_messages_total,
        r.integrity_messages_truncated == integrity_messages_total - kept_messages(integrity_messages_total),
        r.ambiguity_messages_total == ambiguity_messages_total,
        r.ambiguity_messages_truncated == ambiguity_messages_total - kept_messages(ambiguity_messages_total),
{
    let history_total = if artifact_history_total < artifact_history_retained {
        artifact_history_retained
    } else {
        artifact_history_total
    };
    let integrity_kept = if integrity_messages_total < MAX_INSPECTION_MESSAGES {
        integrity_messages_total
    } else {
        MAX_INSPECTION_MESSAGES
    };
    let ambiguity_kept = if ambiguity_messages_total < MAX_INSPECTION_MESSAGES {
        ambiguity_messages_total
    } else {
        MAX_INSPECTION_MESSAGES
    };
    InspectionBounds {
        provider_attempts_total,
        provider_attempts_truncated: provider_attempts_total - provider_attempts_retained,
        provider_exchanges_total,
        provider_exchanges_truncated: provider_exchanges_total - provider_exchanges_retained,
        artifact_history_total: history_total,
        artifact_history_truncated: history_total - artifact_history_retained,
        evaluation_prefix_total,
        evaluation_prefix_truncated: evaluation_prefix_total - evaluation_prefix_retained,
        integrity_messages_total,
        integrity_messages_truncated: integrity_messages_total - integrity_kept,
        ambiguity_messages_total,
        ambiguity_messages_truncated: ambiguity_messages_total - ambiguity_kept,
    }
}


/// One entry of a run's `artifacts/` listing: its file name (decoded lossily where it is
/// not UTF-8), its path as displayed, whether its name is UTF-8 and whether it is a real
/// regular file.
#[derive(Debug, Clone, PartialEq, Eq)]
pub struct InventoryEntry {
    pub name: String,
    pub display_path: String,
    pub utf8: bool,
    pub regular_file: bool,
}

/// Which artifacts a listing keeps.
#[derive(Debug, Clone, PartialEq, Eq)]
pub enum ArtifactFilter {
    /// Testing evidence, logs and EvalReports.
    EvaluationPrefix,
    /// The role artifacts of the step with this file stem.
    RoleArtifact(String),
}

/// An evaluation artifact path: `artifacts/07-testing…` or `artifacts/08-eval-report…`.
pub open spec fn is_evaluation_prefix(path: Seq<char>) -> bool {
    match strip_prefix(path, "artifacts/"@) {
        Some(name) => starts_with(name, "07-testing"@) || starts_with(name, "08-eval-report"@),
        None => false,
    }
}

pub open spec fn filter_includes(filter: ArtifactFilter, path: Seq<char>) -> bool {
    match filter {
        ArtifactFilter::EvaluationPrefix => is_evaluation_prefix(path),
        ArtifactFilter::RoleArtifact(stem) => role_artifact_identity_spec(stem@, path) is Some,
    }
}

fn is_evaluation_prefix_exec(path: &Vec<char>) -> (r: bool)
    ensures
        r == is_evaluation_prefix(path@),
{
    match strip_prefix_exec(path, &chars_of("artifacts/")) {
        Some(name) => has_prefix(&name, &chars_of("07-testing")) || has_prefix(&name, &chars_of("08-eval-report")),
        None => false,
    }
}

fn filter_includes_exec(filter: &ArtifactFilter, path: &String) -> (r: bool)
    ensures
        r == filter_includes(*filter, path@),
{
    match filter {
        ArtifactFilter::EvaluationPrefix => is_evaluation_prefix_exec(&chars_of(path.as_str())),
        ArtifactFilter::RoleArtifact(stem) => role_artifact_identity(stem.as_str(), path.as_str()).is_some(),
    }
}

/// The first entry of a listing that inspection refuses, as its refusal.
pub open spec fn listing_error(entries: Seq<InventoryEntry>) -> Option<Seq<char>>
    decreases entries.len(),
{
    if entries.len() == 0 {
        None
    } else {
        match listing_error(entries.drop_last()) {
            Some(e) => Some(e),
            None => {
                let e = entries.last();
                if !e.regular_file {
                    Some("artifact inventory contains unsafe entry: "@ + e.display_path@)
                } else if !e.utf8 {
                    Some("artifact inventory contains a non-UTF-8 name"@)
                } else {
                    None
                }
            },
        }
    }
}

/// The artifact paths of the listing that the filter keeps, in listing order.
pub open spec fn included_paths(entries: Seq<InventoryEntry>, filter: ArtifactFilter) -> Seq<Seq<char>>
    decreases entries.len(),
{
    if entries.len() == 0 {
        seq![]
    } else {
        let rest = included_paths(entries.drop_last(), filter);
        let path = "artifacts/"@ + entries.last().name@;
        if filter_includes(filter, path) {
            rest.push(path)
        } else {
            rest
        }
    }
}

/// The number of paths of `paths`, outside `priority`, that come before `x`.
pub open spec fn rank_among(paths: Seq<Seq<char>>, priority: Seq<Seq<char>>, x: Seq<char>) -> nat
    decreases paths.len(),
{
    if paths.len() == 0 {
        0
    } else {
        rank_among(paths.drop_last(), priority, x) + if !priority.contains(paths.last()) && lex_lt(
            paths.last(),
            x,
        ) {
            1nat
        } else {
            0nat
        }
    }
}

/// Whether a listed path is retained: every priority path, and the `limit` first of the
/// others in path order.
pub open spec fn retained(paths: Seq<Seq<char>>, priority: Seq<Seq<char>>, limit: nat, x: Seq<char>) -> bool {
    paths.contains(x) && (priority.contains(x) || rank_among(paths, priority, x) < limit)
}

pub open spec fn historical_limit(retain_limit: usize, priority_len: nat) -> nat {
    if priority_len < retain_limit {
        (retain_limit - priority_len) as nat
    } else {
        0
    }
}

pub(crate) fn seq_contains_string(v: &Vec<String>, x: &String) -> (r: bool)
    ensures
        r == string_seq(v@).contains(x@),
{
    let xc = chars_of(x.as_str());
    let mut i: usize = 0;
    while i < v.len()
        invariant
            i <= v.len(),
            xc@ == x@,
            forall|j: int| 0 <= j < i ==> string_seq(v@)[j] != x@,
        decreases v.len() - i,
    {
        if seq_eq(&chars_of(v[i].as_str()), &xc) {
            assert(string_seq(v@)[i as int] == x@);
            return true;
        }
        i = i + 1;
    }
    false
}

fn rank_exec(paths: &Vec<String>, priority: &Vec<String>, x: &String) -> (r: usize)
    ensures
        r == rank_among(string_seq(paths@), string_seq(priority@), x@),
{
    let xc = chars_of(x.as_str());
    let mut count: usize = 0;
    let mut i: usize = 0;
    while i < paths.len()
        invariant
            i <= paths.len(),
            xc@ == x@,
            count == rank_among(string_seq(paths@).take(i as int), string_seq(priority@), x@),
            count <= i,
        decreases paths.len() - i,
    {
        assert(string_seq(paths@).take(i + 1).drop_last() =~= string_seq(paths@).take(i as int));
        assert(string_seq(paths@).take(i + 1).last() == paths@[i as int]@);
        if !seq_contains_string(priority, &paths[i]) && lex_less(&chars_of(paths[i].as_str()), &xc) {
            count = count + 1;
        }
        i = i + 1;
    }
    assert(string_seq(paths@).take(paths.len() as int) =~= string_seq(paths@));
    count
}

pub open spec fn distinct_names(entries: Seq<InventoryEntry>) -> bool {
    forall|i: int, j: int| 0 <= i < j < entries.len() ==> (#[trigger] entries[i]).name@ != (#[trigger] entries[j]).name@
}

pub open spec fn distinct_strings(v: Seq<Seq<char>>) -> bool {
    forall|i: int, j: int| 0 <= i < j < v.len() ==> #[trigger] v[i] != #[trigger] v[j]
}

proof fn lemma_included_from_entries(entries: Seq<InventoryEntry>, filter: ArtifactFilter)
    requires
        distinct_names(entries),
    ensures
        distinct_strings(included_paths(entries, filter)),
        forall|x: Seq<char>| #[trigger] included_paths(entries, filter).contains(x) ==> exists|i: int|
            0 <= i < entries.len() && x == "artifacts/"@ + (#[trigger] entries[i]).name@,
    decreases entries.len(),
{
    if entries.len() > 0 {
        let prev = entries.drop_last();
        assert(distinct_names(prev)) by {
            assert forall|i: int, j: int| 0 <= i < j < prev.len() implies (#[trigger] prev[i]).name@
                != (#[trigger] prev[j]).name@ by {
                assert(prev[i] == entries[i] && prev[j] == entries[j]);
            }
        }
        lemma_included_from_entries(prev, filter);
        let rest = included_paths(prev, filter);
        let path = "artifacts/"@ + entries.last().name@;
        assert forall|x: Seq<char>| #[trigger] included_paths(entries, filter).contains(x) implies exists|i: int|
            0 <= i < entries.len() && x == "artifacts/"@ + (#[trigger] entries[i]).name@ by {
            if rest.contains(x) {
                let i = choose|i: int| 0 <= i < prev.len() && x == "artifacts/"@ + (#[trigger] prev[i]).name@;
                assert(prev[i] == entries[i]);
            } else {
                assert(x == path);
                assert(entries[entries.len() - 1] == entries.last());
            }
        }
        if filter_includes(filter, path) {
            let all = rest.push(path);
            assert forall|i: int, j: int| 0 <= i < j < all.len() implies #[trigger] all[i] != #[trigger] all[j] by {
                if j == all.len() - 1 {
                    assert(rest.contains(all[i]));
                    let k = choose|k: int| 0 <= k < prev.len() && all[i] == "artifacts/"@ + (#[trigger] prev[k]).name@;
                    assert(prev[k] == entries[k]);
                    if all[i] == all[j] {
                        let n = "artifacts/"@.len() as int;
                        assert(("artifacts/"@ + entries[k].name@).skip(n) =~= entries[k].name@);
                        assert(("artifacts/"@ + entries.last().name@).skip(n) =~= entries.last().name@);
                        assert(entries[entries.len() - 1] == entries.last());
                    }
                }
            }
        }
    }
}

/// The retained artifact paths of a listing, in path order, and how many it holds in all;
/// or the refusal of its first unsafe entry.
pub fn list_regular_artifacts(
    entries: &Vec<InventoryEntry>,
    retain_limit: usize,
    priority: &Vec<String>,
    filter: &ArtifactFilter,
) -> (r: Result<(Vec<String>, usize), InspectError>)
    requires
        distinct_names(entries@),
        distinct_strings(string_seq(priority@)),
    ensures
        match r {
            Ok((paths, total)) => {
                &&& listing_error(entries@) is None
                &&& total == included_paths(entries@, *filter).len()
                &&& sorted_strictly(string_seq(paths@))
                &&& forall|x: Seq<char>| #[trigger] string_seq(paths@).contains(x) <==> retained(
                    included_paths(entries@, *filter),
                    string_seq(priority@),
                    historical_limit(retain_limit, priority@.len()),
                    x,
                )
            },
            Err(e) => listing_error(entries@) is Some && e == InspectError::Safety(e->Safety_0)
                && e->Safety_0@ == listing_error(entries@)->0,
        },
{
    let mut i: usize = 0;
    let mut included: Vec<String> = Vec::new();
    while i < entries.len()
        invariant
            i <= entries.len(),
            listing_error(entries@.take(i as int)) is None,
            string_seq(included@) == included_paths(entries@.take(i as int), *filter),
            included.len() <= i,
        decreases entries.len() - i,
    {
        assert(entries@.take(i + 1).drop_last() =~= entries@.take(i as int));
        assert(entries@.take(i + 1).last() == entries@[i as int]);
        let e = &entries[i];
        if !e.regular_file {
            let mut m = chars_of("artifact inventory contains unsafe entry: ");
            append_chars(&mut m, &chars_of(e.display_path.as_str()));
            proof {
                lemma_listing_error_sticks(entries@, i + 1);
            }
            return Err(InspectError::Safety(string_of(&m)));
        }
        if !e.utf8 {
            proof {
                lemma_listing_error_sticks(entries@, i + 1);
            }
            return Err(InspectError::Safety(string_of(&chars_of("artifact inventory contains a non-UTF-8 name"))));
        }
        let path = string_of(&join_chars(&chars_of("artifacts/"), &chars_of(e.name.as_str())));
        if filter_includes_exec(filter, &path) {
            let ghost before = string_seq(included@);
            included.push(path);
            assert(string_seq(included@) =~= before.push(path@));
        }
        i = i + 1;
    }
    assert(entries@.take(entries.len() as int) =~= entries@);
    proof {
        lemma_included_from_entries(entries@, *filter);
    }
    let prio = priority.len();
    let limit = if prio < retain_limit {
        retain_limit - prio
    } else {
        0
    };
    let ghost inc = string_seq(included@);
    let ghost pv = string_seq(priority@);
    let mut out: Vec<String> = Vec::new();
    let mut j: usize = 0;
    while j < included.len()
        invariant
            j <= included.len(),
            inc == string_seq(included@),
            pv == string_seq(priority@),
            distinct_strings(inc),
            limit == historical_limit(retain_limit, priority@.len()),
            sorted_strictly(string_seq(out@)),
            forall|x: Seq<char>| #[trigger] string_seq(out@).contains(x) <==> (inc.take(j as int).contains(x)
                && retained(inc, pv, limit as nat, x)),
        decreases included.len() - j,
    {
        let x = &included[j];
        let keep = seq_contains_string(priority, x) || rank_exec(&included, priority, x) < limit;
        proof {
            assert(inc.take(j + 1) =~= inc.take(j as int).push(inc[j as int]));
            assert(inc[j as int] == x@);
            assert(inc.contains(x@));
            assert(!inc.take(j as int).contains(x@)) by {
                if inc.take(j as int).contains(x@) {
                    let k = choose|k: int| 0 <= k < j && inc.take(j as int)[k] == x@;
                    assert(inc[k] == inc[j as int]);
                }
            }
        }
        let ghost before = string_seq(out@);
        if keep {
            assert(!before.contains(x@));
            insert_sorted(&mut out, x.clone());
        }
        proof {
            assert(keep == retained(inc, pv, limit as nat, x@));
            assert forall|y: Seq<char>| #[trigger] string_seq(out@).contains(y) <==> (inc.take(j + 1).contains(y)
                && retained(inc, pv, limit as nat, y)) by {
                if inc.take(j + 1).contains(y) {
                    let t = inc.take(j + 1);
                    let k = choose|k: int| 0 <= k < t.len() && #[trigger] t[k] == y;
                    if k < j {
                        assert(inc.take(j as int)[k] == y);
                    } else {
                        assert(y == x@);
                    }
                }
                if inc.take(j as int).contains(y) {
                    let t = inc.take(j as int);
                    let k = choose|k: int| 0 <= k < t.len() && #[trigger] t[k] == y;
                    assert(inc.take(j + 1)[k] == y);
                }
                if y == x@ {
                    assert(inc.take(j + 1)[j as int] == y);
                }
            }
        }
        j = j + 1;
    }
    assert(inc.take(included.len() as int) =~= inc);
    Ok((out, included.len()))
}

proof fn lemma_listing_error_sticks(entries: Seq<InventoryEntry>, i: int)
    requires
        0 <= i <= entries.len(),
        listing_error(entries.take(i)) is Some,
    ensures
        listing_error(entries) == listing_error(entries.take(i)),
    decreases entries.len() - i,
{
    if i < entries.len() {
        assert(entries.take(i + 1).drop_last() =~= entries.take(i));
        lemma_listing_error_sticks(entries, i + 1);
    } else {
        assert(entries.take(i) =~= entries);
    }
}


/// What inspection reads of one step record of a run: whether it is the Testing or
/// EvalReport step, and the artifact it selects with its recorded digest.
#[derive(Debug, Clone, PartialEq, Eq)]
pub struct StepRecordSummary {
    pub evaluation_step: bool,
    pub artifact_path: Option<String>,
    pub artifact_digest: Option<String>,
}

/// `str::to_lowercase`: the Unicode lowercase mapping of a string.
pub uninterp spec fn unicode_lowercase(s: Seq<char>) -> Seq<char>;

/// `str::to_lowercase`; the contract names the lowercased text, a function of the text
/// alone.
#[verifier::external_body]
pub(crate) fn to_lowercase(s: &str) -> (r: String)
    ensures
        r@ == unicode_lowercase(s@),
{
    s.to_lowercase()
}

/// The paths that the Testing and EvalReport steps and the run's EvalReport reference,
/// where they are evaluation artifacts, in record order.
pub open spec fn current_candidates(records: Seq<StepRecordSummary>) -> Seq<Seq<char>>
    decreases records.len(),
{
    if records.len() == 0 {
        seq![]
    } else {
        let rest = current_candidates(records.drop_last());
        let r = records.last();
        match r.artifact_path {
            Some(p) => if r.evaluation_step && is_evaluation_prefix(p@) {
                rest.push(p@)
            } else {
                rest
            },
            None => rest,
        }
    }
}

pub open spec fn current_evaluation_paths(records: Seq<StepRecordSummary>, eval_report_path: Option<Seq<char>>) -> Seq<
    Seq<char>,
> {
    match eval_report_path {
        Some(p) => if is_evaluation_prefix(p) {
            current_candidates(records).push(p)
        } else {
            current_candidates(records)
        },
        None => current_candidates(records),
    }
}

/// The digest recorded by the first step record that selects `path`, if one does.
pub open spec fn recorded_digest(records: Seq<StepRecordSummary>, path: Seq<char>) -> Option<Seq<char>>
    decreases records.len(),
{
    if records.len() == 0 {
        None
    } else {
        match recorded_digest(records.drop_last(), path) {
            Some(d) => Some(d),
            None => {
                let r = records.last();
                if opt_view(r.artifact_path) == Some(path) {
                    Some(
                        match r.artifact_digest {
                            Some(d) => d@,
                            None => seq![],
                        },
                    )
                } else {
                    None
                }
            },
        }
    }
}

/// The classification of a listed evaluation artifact, given the bytes read at it where
/// a step selects it.
pub open spec fn prefix_class(
    records: Seq<StepRecordSummary>,
    path: Seq<char>,
    read: Option<Vec<u8>>,
    final_authority_invalid: bool,
) -> EvidenceClassification {
    match recorded_digest(records, path) {
        None => EvidenceClassification::Historical,
        Some(d) => {
            let c = classify_read_spec(
                match read {
                    Some(b) => Some(digest_hex_spec(b@)),
                    None => None,
                },
                d,
            );
            if c == EvidenceClassification::Verified {
                if final_authority_invalid {
                    EvidenceClassification::Ambiguous
                } else {
                    EvidenceClassification::Current
                }
            } else {
                c
            }
        },
    }
}

pub open spec fn class_name(c: EvidenceClassification) -> Seq<char> {
    match c {
        EvidenceClassification::Current => "Current"@,
        EvidenceClassification::Historical => "Historical"@,
        EvidenceClassification::Ambiguous => "Ambiguous"@,
        EvidenceClassification::Missing => "Missing"@,
        EvidenceClassification::Tampered => "Tampered"@,
        EvidenceClassification::Verified => "Verified"@,
    }
}

/// The integrity messages about listed artifacts, in listing order.
pub open spec fn artifact_messages(
    records: Seq<StepRecordSummary>,
    artifacts: Seq<Seq<char>>,
    reads: Seq<Option<Vec<u8>>>,
    invalid: bool,
) -> Seq<Seq<char>>
    decreases artifacts.len(),
{
    if artifacts.len() == 0 {
        seq![]
    } else {
        let n = (artifacts.len() - 1) as int;
        let rest = artifact_messages(records, artifacts.drop_last(), reads, invalid);
        let c = prefix_class(records, artifacts[n], reads[n], invalid);
        if recorded_digest(records, artifacts[n]) is Some && c != EvidenceClassification::Current && c
            != EvidenceClassification::Ambiguous {
            rest.push(unicode_lowercase("evaluation prefix "@ + artifacts[n] + " is "@ + class_name(c)))
        } else {
            rest
        }
    }
}

/// The current paths that the listing lacks, in path order.
pub open spec fn missing_current(current: Seq<Seq<char>>, artifacts: Seq<Seq<char>>) -> Seq<Seq<char>>
    decreases current.len(),
{
    if current.len() == 0 {
        seq![]
    } else {
        let rest = missing_current(current.drop_last(), artifacts);
        if !artifacts.contains(current.last()) {
            rest.push(current.last())
        } else {
            rest
        }
    }
}

/// The classification of a path of the evaluation prefix report.
pub open spec fn reported_class(
    records: Seq<StepRecordSummary>,
    artifacts: Seq<Seq<char>>,
    reads: Seq<Option<Vec<u8>>>,
    invalid: bool,
    path: Seq<char>,
) -> EvidenceClassification {
    if artifacts.contains(path) {
        let k = choose|k: int| 0 <= k < artifacts.len() && artifacts[k] == path;
        prefix_class(records, path, reads[k], invalid)
    } else {
        EvidenceClassification::Missing
    }
}

fn class_name_exec(c: EvidenceClassification) -> (r: Vec<char>)
    ensures
        r@ == class_name(c),
{
    match c {
        EvidenceClassification::Current => chars_of("Current"),
        EvidenceClassification::Historical => chars_of("Historical"),
        EvidenceClassification::Ambiguous => chars_of("Ambiguous"),
        EvidenceClassification::Missing => chars_of("Missing"),
        EvidenceClassification::Tampered => chars_of("Tampered"),
        EvidenceClassification::Verified => chars_of("Verified"),
    }
}

fn recorded_digest_exec(records: &Vec<StepRecordSummary>, path: &String) -> (r: Option<String>)
    ensures
        match r {
            Some(d) => recorded_digest(records@, path@) == Some(d@),
            None => recorded_digest(records@, path@) is None,
        },
{
    let pc = chars_of(path.as_str());
    let mut i: usize = 0;
    while i < records.len()
        invariant
            i <= records.len(),
            pc@ == path@,
            recorded_digest(records@.take(i as int), path@) is None,
        decreases records.len() - i,
    {
        assert(records@.take(i + 1).drop_last() =~= records@.take(i as int));
        assert(records@.take(i + 1).last() == records@[i as int]);
        let matches = match &records[i].artifact_path {
            Some(p) => seq_eq(&chars_of(p.as_str()), &pc),
            None => false,
        };
        if matches {
            let d = match &records[i].artifact_digest {
                Some(d) => d.clone(),
                None => String::new(),
            };
            proof {
                lemma_recorded_digest_sticks(records@, path@, i + 1);
            }
            return Some(d);
        }
        i = i + 1;
    }
    assert(records@.take(records.len() as int) =~= records@);
    None
}

proof fn lemma_recorded_digest_sticks(records: Seq<StepRecordSummary>, path: Seq<char>, i: int)
    requires
        0 <= i <= records.len(),
        recorded_digest(records.take(i), path) is Some,
    ensures
        recorded_digest(records, path) == recorded_digest(records.take(i), path),
    decreases records.len() - i,
{
    if i < records.len() {
        assert(records.take(i + 1).drop_last() =~= records.take(i));
        lemma_recorded_digest_sticks(records, path, i + 1);
    } else {
        assert(records.take(i) =~= records);
    }
}

fn prefix_class_exec(
    records: &Vec<StepRecordSummary>,
    path: &String,
    read: &Option<Vec<u8>>,
    final_authority_invalid: bool,
) -> (r: (EvidenceClassification, bool))
    ensures
        r.0 == prefix_class(records@, path@, *read, final_authority_invalid),
        r.1 == recorded_digest(records@, path@) is Some,
{
    match recorded_digest_exec(records, path) {
        None => (EvidenceClassification::Historical, false),
        Some(d) => {
            let c = match read {
                Some(b) => classify_digest(Some(b.as_slice()), d.as_str()),
                None => classify_digest(None, d.as_str()),
            };
            let c = if c == EvidenceClassification::Verified {
                if final_authority_invalid {
                    EvidenceClassification::Ambiguous
                } else {
                    EvidenceClassification::Current
                }
            } else {
                c
            };
            (c, true)
        },
    }
}

/// The current paths of the evaluation prefix: the evaluation artifacts that the Testing
/// and EvalReport steps and the run's EvalReport reference, in path order, each once.
pub fn current_evaluation_prefix_paths(
    records: &Vec<StepRecordSummary>,
    eval_report_path: &Option<String>,
) -> (r: Vec<String>)
    ensures
        string_seq(r@) == sorted_members(current_evaluation_paths(records@, opt_view(*eval_report_path))),
        sorted_strictly(string_seq(r@)),
        r@.len() <= records@.len() + 1,
{
    let mut candidates: Vec<String> = Vec::new();
    let mut i: usize = 0;
    while i < records.len()
        invariant
            i <= records.len(),
            string_seq(candidates@) == current_candidates(records@.take(i as int)),
            candidates.len() <= i,
        decreases records.len() - i,
    {
        assert(records@.take(i + 1).drop_last() =~= records@.take(i as int));
        assert(records@.take(i + 1).last() == records@[i as int]);
        match &records[i].artifact_path {
            Some(p) => {
                if records[i].evaluation_step && is_evaluation_prefix_exec(&chars_of(p.as_str())) {
                    let ghost before = string_seq(candidates@);
                    candidates.push(p.clone());
                    assert(string_seq(candidates@) =~= before.push(p@));
                }
            },
            None => {},
        }
        i = i + 1;
    }
    assert(records@.take(records.len() as int) =~= records@);
    match eval_report_path {
        Some(p) => {
            if is_evaluation_prefix_exec(&chars_of(p.as_str())) {
                let ghost before = string_seq(candidates@);
                candidates.push(p.clone());
                assert(string_seq(candidates@) =~= before.push(p@));
            }
        },
        None => {},
    }
    sort_unique(&candidates)
}

/// The evaluation prefix report: every listed evaluation artifact and every current path
/// the listing lacks, in path order, the first 64 kept; with the total found and the
/// integrity messages, listed artifacts first.
pub fn inspect_evaluation_prefix(
    records: &Vec<StepRecordSummary>,
    eval_report_path: &Option<String>,
    final_authority_invalid: bool,
    artifacts: &Vec<String>,
    existing_total: usize,
    reads: &Vec<Option<Vec<u8>>>,
    messages: &mut Vec<String>,
) -> (r: (Vec<EvaluationPrefixInspection>, usize))
    requires
        sorted_strictly(string_seq(artifacts@)),
        reads.len() == artifacts.len(),
        existing_total + records.len() + 1 <= usize::MAX,
    ensures
        ({
            let current = sorted_members(current_evaluation_paths(records@, opt_view(*eval_report_path)));
            let missing = missing_current(current, string_seq(artifacts@));
            let listed = sorted_members(string_seq(artifacts@) + missing);
            &&& r.1 == existing_total + missing.len()
            &&& r.0@.len() == (if listed.len() < 64 { listed.len() } else { 64 })
            &&& forall|i: int| 0 <= i < r.0@.len() ==> (#[trigger] r.0@[i]).path@ == listed[i]
                && r.0@[i].classification == reported_class(
                records@,
                string_seq(artifacts@),
                reads@,
                final_authority_invalid,
                listed[i],
            )
            &&& string_seq(final(messages)@) == string_seq(old(messages)@) + artifact_messages(
                records@,
                string_seq(artifacts@),
                reads@,
                final_authority_invalid,
            ) + missing.map_values(|p: Seq<char>| "evaluation prefix "@ + p + " is missing"@)
        }),
{
    let current = current_evaluation_prefix_paths(records, eval_report_path);
    let ghost av = string_seq(artifacts@);
    // Listed artifacts.
    let mut classes: Vec<EvidenceClassification> = Vec::new();
    let mut k: usize = 0;
    let ghost base = string_seq(messages@);
    while k < artifacts.len()
        invariant
            k <= artifacts.len() == reads.len(),
            av == string_seq(artifacts@),
            classes@.len() == k,
            forall|j: int| 0 <= j < k ==> #[trigger] classes@[j] == prefix_class(records@, av[j], reads@[j], final_authority_invalid),
            string_seq(messages@) == base + artifact_messages(records@, av.take(k as int), reads@, final_authority_invalid),
        decreases artifacts.len() - k,
    {
        let (c, selected) = prefix_class_exec(records, &artifacts[k], &reads[k], final_authority_invalid);
        assert(av.take(k + 1).drop_last() =~= av.take(k as int));
        assert(av.take(k + 1)[k as int] == av[k as int]);
        assert(av[k as int] == artifacts@[k as int]@);
        if selected && c != EvidenceClassification::Current && c != EvidenceClassification::Ambiguous {
            let mut m = chars_of("evaluation prefix ");
            append_chars(&mut m, &chars_of(artifacts[k].as_str()));
            append_chars(&mut m, &chars_of(" is "));
            append_chars(&mut m, &class_name_exec(c));
            let ghost before = string_seq(messages@);
            let low = to_lowercase(string_of(&m).as_str());
            messages.push(low);
            assert(string_seq(messages@) =~= before.push(low@));
        }
        classes.push(c);
        k = k + 1;
    }
    assert(av.take(artifacts.len() as int) =~= av);
    // Missing current paths.
    let ghost cv = string_seq(current@);
    let ghost mid = string_seq(messages@);
    let mut union: Vec<String> = artifacts.clone();
    assert(string_seq(union@) =~= av);
    let mut missing: usize = 0;
    let mut m_i: usize = 0;
    while m_i < current.len()
        invariant
            m_i <= current.len(),
            cv == string_seq(current@),
            av == string_seq(artifacts@),
            string_seq(union@) == av + missing_current(cv.take(m_i as int), av),
            missing == missing_current(cv.take(m_i as int), av).len(),
            missing <= m_i,
            string_seq(messages@) == mid + missing_current(cv.take(m_i as int), av).map_values(
                |p: Seq<char>| "evaluation prefix "@ + p + " is missing"@,
            ),
        decreases current.len() - m_i,
    {
        let p = &current[m_i];
        let ghost prev = cv.take(m_i as int);
        assert(cv.take(m_i + 1).drop_last() =~= prev);
        assert(cv.take(m_i + 1).last() == p@);
        let ghost mc = missing_current(prev, av);
        if !seq_contains_string(artifacts, p) {
            let ghost before_u = string_seq(union@);
            union.push(p.clone());
            assert(string_seq(union@) =~= before_u.push(p@));
            let mut msg = chars_of("evaluation prefix ");
            append_chars(&mut msg, &chars_of(p.as_str()));
            append_chars(&mut msg, &chars_of(" is missing"));
            let ghost before_m = string_seq(messages@);
            let text = string_of(&msg);
            messages.push(text);
            assert(string_seq(messages@) =~= before_m.push(text@));
            assert(mc.push(p@).map_values(|p: Seq<char>| "evaluation prefix "@ + p + " is missing"@)
                =~= mc.map_values(|p: Seq<char>| "evaluation prefix "@ + p + " is missing"@).push(text@));
            missing = missing + 1;
        }
        m_i = m_i + 1;
    }
    assert(cv.take(current.len() as int) =~= cv);
    let sorted = sort_unique(&union);
    let n = if sorted.len() < 64 {
        sorted.len()
    } else {
        64
    };
    let mut out: Vec<EvaluationPrefixInspection> = Vec::new();
    let mut q: usize = 0;
    while q < n
        invariant
            q <= n <= sorted.len(),
            out@.len() == q,
            av == string_seq(artifacts@),
            sorted_strictly(av),
            reads.len() == artifacts.len(),
            classes@.len() == artifacts.len(),
            forall|j: int| 0 <= j < artifacts.len() ==> #[trigger] classes@[j] == prefix_class(records@, av[j], reads@[j], final_authority_invalid),
            forall|j: int| 0 <= j < q ==> (#[trigger] out@[j]).path@ == string_seq(sorted@)[j] && out@[j].classification
                == reported_class(records@, av, reads@, final_authority_invalid, string_seq(sorted@)[j]),
        decreases n - q,
    {
        let path = sorted[q].clone();
        let mut found: Option<usize> = None;
        let mut a: usize = 0;
        let pc = chars_of(path.as_str());
        while a < artifacts.len()
            invariant
                a <= artifacts.len(),
                pc@ == path@,
                av == string_seq(artifacts@),
                match found {
                    Some(x) => x < artifacts.len() && av[x as int] == path@,
                    None => forall|j: int| 0 <= j < a ==> av[j] != path@,
                },
            decreases artifacts.len() - a,
        {
            if found.is_none() && seq_eq(&chars_of(artifacts[a].as_str()), &pc) {
                found = Some(a);
            }
            a = a + 1;
        }
        let class = match found {
            Some(x) => {
                proof {
                    let kk = choose|kk: int| 0 <= kk < av.len() && av[kk] == path@;
                    if kk != x {
                        if kk < x {
                            crate::text::lemma_sorted_lt(av, kk, x as int);
                        } else {
                            crate::text::lemma_sorted_lt(av, x as int, kk);
                        }
                        crate::text::lemma_lex_irreflexive(path@);
                    }
                }
                classes[x]
            },
            None => EvidenceClassification::Missing,
        };
        assert(string_seq(sorted@)[q as int] == path@);
        out.push(EvaluationPrefixInspection { path, classification: class });
        q = q + 1;
    }
    (out, existing_total + missing)
}


} // verus!
