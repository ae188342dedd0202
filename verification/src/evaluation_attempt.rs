//! Evaluation attempts: the canonical file names of an attempt's artifacts, and the
//! inventory that a run directory's `artifacts/` listing must form.
//!
//! An attempt publishes, in order, an execution intent, a stdout and a stderr log per
//! check, Testing evidence and an EvalReport. Attempt 1 may use the fixed spelling
//! (`07-testing.json`); every attempt may use the indexed spelling
//! (`07-testing.attempt-001.json`).
use vstd::prelude::*;

use crate::number::{
    all_digits, canonical_number, canonical_number_spec, decimal, decimal_exec, lemma_canonical_roundtrip,
    pad3, pad3_exec,
};
use crate::text::{
    append_chars, chars_of, join_chars, opt_view, replace_all, replace_all_exec, seq_eq,
    split_once, split_once_exec, starts_with, has_prefix, string_of, strip_prefix,
    strip_prefix_exec, strip_suffix, strip_suffix_exec, is_lower_hex, is_digit, lemma_find_char_at, matches_at,
};

verus! {

/// Which of the two naming schemes an attempt's artifacts use.
#[derive(Debug, Clone, Copy, PartialEq, Eq, Structural)]
pub enum Spelling {
    Fixed,
    Indexed,
}

/// The slot of an attempt that a file name fills.
#[derive(Debug, Clone, Copy, PartialEq, Eq, Structural)]
pub enum Kind {
    Intent,
    Testing,
    Report,
    Stdout(u32),
    Stderr(u32),
}

pub open spec fn log_kind(stream: Seq<char>, check: u32) -> Option<Kind> {
    if stream == "stdout.log"@ {
        Some(Kind::Stdout(check))
    } else if stream == "stderr.log"@ {
        Some(Kind::Stderr(check))
    } else {
        None
    }
}

/// `check-NNN.stream` after the attempt prefix.
pub open spec fn parse_log_name(rest: Seq<char>) -> Option<Kind> {
    match split_once(rest, '.') {
        None => None,
        Some((check, stream)) => match canonical_number_spec(check) {
            None => None,
            Some(c) => log_kind(stream, c),
        },
    }
}

pub open spec fn parse_indexed_testing_suffix(suffix: Seq<char>) -> Option<Kind> {
    if suffix == "execution-intent.json"@ {
        Some(Kind::Intent)
    } else if suffix == "json"@ {
        Some(Kind::Testing)
    } else {
        match strip_prefix(suffix, "check-"@) {
            Some(log) => parse_log_name(log),
            None => None,
        }
    }
}

/// The attempt, spelling and slot that an evaluation artifact's file name denotes, or
/// `None` where the name is malformed or not in canonical spelling.
pub open spec fn parse_name_spec(name: Seq<char>) -> Option<(u32, Spelling, Kind)> {
    if name == "07-testing.execution-intent.json"@ {
        Some((1, Spelling::Fixed, Kind::Intent))
    } else if name == "07-testing.json"@ {
        Some((1, Spelling::Fixed, Kind::Testing))
    } else if name == "08-eval-report.json"@ {
        Some((1, Spelling::Fixed, Kind::Report))
    } else if strip_prefix(name, "07-testing.check-"@) is Some {
        match parse_log_name(strip_prefix(name, "07-testing.check-"@)->0) {
            Some(kind) => Some((1, Spelling::Fixed, kind)),
            None => None,
        }
    } else if strip_prefix(name, "07-testing.attempt-"@) is Some {
        match split_once(strip_prefix(name, "07-testing.attempt-"@)->0, '.') {
            None => None,
            Some((attempt, suffix)) => match canonical_number_spec(attempt) {
                None => None,
                Some(a) => match parse_indexed_testing_suffix(suffix) {
                    Some(kind) => Some((a, Spelling::Indexed, kind)),
                    None => None,
                },
            },
        }
    } else {
        match strip_prefix(name, "08-eval-report.attempt-"@) {
            None => None,
            Some(rest) => match strip_suffix(rest, ".json"@) {
                None => None,
                Some(number) => match canonical_number_spec(number) {
                    Some(a) => Some((a, Spelling::Indexed, Kind::Report)),
                    None => None,
                },
            },
        }
    }
}

fn log_kind_exec(stream: &Vec<char>, check: u32) -> (r: Option<Kind>)
    ensures
        r == log_kind(stream@, check),
{
    if seq_eq(stream, &chars_of("stdout.log")) {
        Some(Kind::Stdout(check))
    } else if seq_eq(stream, &chars_of("stderr.log")) {
        Some(Kind::Stderr(check))
    } else {
        None
    }
}

fn parse_log_name_exec(rest: &Vec<char>) -> (r: Option<Kind>)
    ensures
        r == parse_log_name(rest@),
{
    match split_once_exec(rest, '.') {
        None => None,
        Some((check, stream)) => match canonical_number(&check) {
            None => None,
            Some(c) => log_kind_exec(&stream, c),
        },
    }
}

fn parse_indexed_testing_suffix_exec(suffix: &Vec<char>) -> (r: Option<Kind>)
    ensures
        r == parse_indexed_testing_suffix(suffix@),
{
    if seq_eq(suffix, &chars_of("execution-intent.json")) {
        Some(Kind::Intent)
    } else if seq_eq(suffix, &chars_of("json")) {
        Some(Kind::Testing)
    } else {
        match strip_prefix_exec(suffix, &chars_of("check-")) {
            Some(log) => parse_log_name_exec(&log),
            None => None,
        }
    }
}

/// Reads an evaluation artifact's file name.
pub fn parse_name(name: &Vec<char>) -> (r: Option<(u32, Spelling, Kind)>)
    ensures
        r == parse_name_spec(name@),
{
    if seq_eq(name, &chars_of("07-testing.execution-intent.json")) {
        return Some((1, Spelling::Fixed, Kind::Intent));
    }
    if seq_eq(name, &chars_of("07-testing.json")) {
        return Some((1, Spelling::Fixed, Kind::Testing));
    }
    if seq_eq(name, &chars_of("08-eval-report.json")) {
        return Some((1, Spelling::Fixed, Kind::Report));
    }
    if let Some(rest) = strip_prefix_exec(name, &chars_of("07-testing.check-")) {
        return match parse_log_name_exec(&rest) {
            Some(kind) => Some((1, Spelling::Fixed, kind)),
            None => None,
        };
    }
    if let Some(rest) = strip_prefix_exec(name, &chars_of("07-testing.attempt-")) {
        return match split_once_exec(&rest, '.') {
            None => None,
            Some((attempt, suffix)) => match canonical_number(&attempt) {
                None => None,
                Some(a) => match parse_indexed_testing_suffix_exec(&suffix) {
                    Some(kind) => Some((a, Spelling::Indexed, kind)),
                    None => None,
                },
            },
        };
    }
    match strip_prefix_exec(name, &chars_of("08-eval-report.attempt-")) {
        None => None,
        Some(rest) => match strip_suffix_exec(&rest, &chars_of(".json")) {
            None => None,
            Some(number) => match canonical_number(&number) {
                Some(a) => Some((a, Spelling::Indexed, Kind::Report)),
                None => None,
            },
        },
    }
}

/// A lowercase hexadecimal SHA-256 digest: 64 characters of `0-9a-f`.
pub open spec fn is_digest_spec(value: Seq<char>) -> bool {
    value.len() == 64 && forall|i: int| 0 <= i < value.len() ==> is_lower_hex(#[trigger] value[i])
}

pub fn is_digest(value: &str) -> (r: bool)
    ensures
        r == is_digest_spec(value@),
{
    let v = chars_of(value);
    if v.len() != 64 {
        return false;
    }
    let mut i: usize = 0;
    while i < v.len()
        invariant
            i <= v.len(),
            v@ == value@,
            forall|j: int| 0 <= j < i ==> is_lower_hex(#[trigger] v@[j]),
        decreases v.len() - i,
    {
        let c = v[i];
        if !(('0' <= c && c <= '9') || ('a' <= c && c <= 'f')) {
            return false;
        }
        i = i + 1;
    }
    true
}


pub open spec fn indexed_intent_path(attempt: u32) -> Seq<char> {
    "artifacts/07-testing.attempt-"@ + pad3(attempt as nat) + ".execution-intent.json"@
}

pub open spec fn indexed_testing_path(attempt: u32) -> Seq<char> {
    "artifacts/07-testing.attempt-"@ + pad3(attempt as nat) + ".json"@
}

pub open spec fn indexed_report_path(attempt: u32) -> Seq<char> {
    "artifacts/08-eval-report.attempt-"@ + pad3(attempt as nat) + ".json"@
}

/// The path of a check's log: the Testing path with `.json` replaced by
/// `.check-NNN.<stream>.log`.
pub open spec fn log_path(testing: Seq<char>, check: nat, stream: Seq<char>) -> Seq<char> {
    replace_all(testing, ".json"@, ".check-"@ + pad3(check) + "."@ + stream + ".log"@)
}

/// The paths of one evaluation attempt's intent, Testing evidence and EvalReport.
#[derive(Debug, Clone, PartialEq, Eq)]
pub struct EvaluationAttemptPaths {
    pub intent: String,
    pub testing: String,
    pub report: String,
}

/// `prefix + pad3(n) + suffix`.
fn numbered(prefix: &str, n: u64, suffix: &str) -> (r: Vec<char>)
    ensures
        r@ == prefix@ + pad3(n as nat) + suffix@,
{
    let mut r = chars_of(prefix);
    append_chars(&mut r, &pad3_exec(n));
    append_chars(&mut r, &chars_of(suffix));
    r
}

impl EvaluationAttemptPaths {
    /// The indexed-spelling paths of `attempt`; attempt numbers start at 1.
    pub fn indexed(attempt: u32) -> (r: Result<Self, String>)
        ensures
            attempt == 0 ==> r is Err && r->Err_0@ == "evaluation attempt must be positive"@,
            attempt > 0 ==> r is Ok && r->Ok_0.intent@ == indexed_intent_path(attempt)
                && r->Ok_0.testing@ == indexed_testing_path(attempt)
                && r->Ok_0.report@ == indexed_report_path(attempt),
    {
        if attempt == 0 {
            return Err(string_of(&chars_of("evaluation attempt must be positive")));
        }
        let a = attempt as u64;
        Ok(EvaluationAttemptPaths {
            intent: string_of(
                &numbered("artifacts/07-testing.attempt-", a, ".execution-intent.json"),
            ),
            testing: string_of(&numbered("artifacts/07-testing.attempt-", a, ".json")),
            report: string_of(&numbered("artifacts/08-eval-report.attempt-", a, ".json")),
        })
    }

    fn log(&self, check: usize, stream: &str) -> (r: String)
        ensures
            r@ == log_path(self.testing@, check as nat, stream@),
    {
        let mut to = chars_of(".check-");
        append_chars(&mut to, &pad3_exec(check as u64));
        append_chars(&mut to, &chars_of("."));
        append_chars(&mut to, &chars_of(stream));
        append_chars(&mut to, &chars_of(".log"));
        let from = chars_of(".json");
        proof {
            reveal_strlit(".json");
        }
        string_of(&replace_all_exec(&chars_of(self.testing.as_str()), &from, &to))
    }

    /// The stdout log path of check number `check` of this attempt.
    pub fn stdout(&self, check: usize) -> (r: String)
        ensures
            r@ == log_path(self.testing@, check as nat, "stdout"@),
    {
        self.log(check, "stdout")
    }

    /// The stderr log path of check number `check` of this attempt.
    pub fn stderr(&self, check: usize) -> (r: String)
        ensures
            r@ == log_path(self.testing@, check as nat, "stderr"@),
    {
        self.log(check, "stderr")
    }
}


/// A map from the keys of `s` to their values, a later pair replacing an earlier one.
pub open spec fn keyed_map<K, V>(s: Seq<(K, V)>) -> Map<K, V>
    decreases s.len(),
{
    if s.len() == 0 {
        Map::empty()
    } else {
        keyed_map(s.drop_last()).insert(s.last().0, s.last().1)
    }
}

proof fn lemma_keyed_map_dom<K, V>(s: Seq<(K, V)>, k: K)
    ensures
        keyed_map(s).contains_key(k) <==> exists|i: int| 0 <= i < s.len() && (#[trigger] s[i]).0 == k,
    decreases s.len(),
{
    if s.len() > 0 {
        lemma_keyed_map_dom(s.drop_last(), k);
        if keyed_map(s.drop_last()).contains_key(k) {
            let i = choose|i: int| 0 <= i < s.drop_last().len() && (#[trigger] s.drop_last()[i]).0 == k;
            assert(s[i] == s.drop_last()[i]);
        }
        if exists|i: int| 0 <= i < s.len() && (#[trigger] s[i]).0 == k {
            let i = choose|i: int| 0 <= i < s.len() && (#[trigger] s[i]).0 == k;
            if i < s.len() - 1 {
                assert(s.drop_last()[i] == s[i]);
            }
        }
    }
}

proof fn lemma_keyed_map_last<K, V>(s: Seq<(K, V)>, i: int)
    requires
        0 <= i < s.len(),
        forall|j: int| i < j < s.len() ==> (#[trigger] s[j]).0 != s[i].0,
    ensures
        keyed_map(s).contains_key(s[i].0),
        keyed_map(s)[s[i].0] == s[i].1,
    decreases s.len(),
{
    if i < s.len() - 1 {
        assert(s.drop_last()[i] == s[i]);
        assert forall|j: int| i < j < s.drop_last().len() implies (#[trigger] s.drop_last()[j]).0
            != s.drop_last()[i].0 by {
            assert(s.drop_last()[j] == s[j]);
        }
        lemma_keyed_map_last(s.drop_last(), i);
    }
}

/// One entry of the `artifacts/` listing: its file name (decoded lossily where it is not
/// UTF-8), whether the name is valid UTF-8, and whether the entry is a real regular file
/// rather than a symbolic link or anything else.
#[derive(Debug, Clone, PartialEq, Eq)]
pub struct ArtifactEntry {
    pub name: String,
    pub utf8: bool,
    pub regular_file: bool,
}

/// What the listing has filled so far: each attempt's spelling, and the path in each
/// `(attempt, slot)`.
#[verifier::ext_equal]
pub struct CollectView {
    pub spellings: Map<u32, Spelling>,
    pub paths: Map<(u32, Kind), Seq<char>>,
}

pub open spec fn is_evaluation_name(name: Seq<char>) -> bool {
    starts_with(name, "07-testing"@) || starts_with(name, "08-eval-report"@)
}

/// Files one listing entry into the state, or names the first rule it breaks.
pub open spec fn collect_step(st: CollectView, e: ArtifactEntry, allow_recovered: bool) -> Result<
    CollectView,
    Seq<char>,
> {
    let name = e.name@;
    if !is_evaluation_name(name) {
        Ok(st)
    } else if !e.utf8 {
        Err("evaluation artifact filename is not valid UTF-8"@)
    } else {
        match parse_name_spec(name) {
            None => Err("evaluation artifact filename is malformed or noncanonical: "@ + name),
            Some((attempt, spelling, kind)) => {
                if attempt != 1 && !allow_recovered {
                    Err("evaluation attempt is unauthorized before M1-09c3 recovery"@)
                } else if !e.regular_file {
                    Err("evaluation artifact is not a real regular file: "@ + name)
                } else if st.spellings.contains_key(attempt) && st.spellings[attempt] != spelling {
                    Err(
                        "mixed fixed and indexed evaluation attempt "@ + decimal(attempt as nat)
                            + " authority"@,
                    )
                } else if st.paths.contains_key((attempt, kind)) {
                    Err("duplicate evaluation artifact slot: "@ + name)
                } else {
                    Ok(
                        CollectView {
                            spellings: st.spellings.insert(attempt, spelling),
                            paths: st.paths.insert((attempt, kind), "artifacts/"@ + name),
                        },
                    )
                }
            },
        }
    }
}

/// The listing's entries filed in order; the first broken rule ends it.
pub open spec fn collect(entries: Seq<ArtifactEntry>, allow_recovered: bool) -> Result<
    CollectView,
    Seq<char>,
>
    decreases entries.len(),
{
    if entries.len() == 0 {
        Ok(CollectView { spellings: Map::empty(), paths: Map::empty() })
    } else {
        match collect(entries.drop_last(), allow_recovered) {
            Err(e) => Err(e),
            Ok(st) => collect_step(st, entries.last(), allow_recovered),
        }
    }
}

proof fn lemma_collect_error_sticks(entries: Seq<ArtifactEntry>, allow: bool, i: int, e: Seq<char>)
    requires
        0 <= i <= entries.len(),
        collect(entries.take(i), allow) == Err::<CollectView, Seq<char>>(e),
    ensures
        collect(entries, allow) == Err::<CollectView, Seq<char>>(e),
    decreases entries.len() - i,
{
    if i < entries.len() {
        assert(entries.take(i + 1).drop_last() =~= entries.take(i));
        lemma_collect_error_sticks(entries, allow, i + 1, e);
    } else {
        assert(entries.take(i) =~= entries);
    }
}

struct Collected {
    spellings: Vec<(u32, Spelling)>,
    paths: Vec<((u32, Kind), String)>,
}

pub open spec fn paths_view(v: Seq<((u32, Kind), String)>) -> Seq<((u32, Kind), Seq<char>)> {
    v.map_values(|e: ((u32, Kind), String)| (e.0, e.1@))
}

impl View for Collected {
    type V = CollectView;

    closed spec fn view(&self) -> CollectView {
        CollectView { spellings: keyed_map(self.spellings@), paths: keyed_map(paths_view(self.paths@)) }
    }
}

fn find_spelling(v: &Vec<(u32, Spelling)>, attempt: u32) -> (r: Option<Spelling>)
    ensures
        match r {
            Some(s) => keyed_map(v@).contains_key(attempt) && keyed_map(v@)[attempt] == s,
            None => !keyed_map(v@).contains_key(attempt),
        },
{
    let mut i = v.len();
    while i > 0
        invariant
            i <= v.len(),
            forall|j: int| i <= j < v.len() ==> (#[trigger] v@[j]).0 != attempt,
        decreases i,
    {
        i = i - 1;
        if v[i].0 == attempt {
            proof {
                lemma_keyed_map_last(v@, i as int);
            }
            return Some(v[i].1);
        }
    }
    proof {
        lemma_keyed_map_dom(v@, attempt);
    }
    None
}

fn find_path(v: &Vec<((u32, Kind), String)>, attempt: u32, kind: Kind) -> (r: Option<String>)
    ensures
        opt_view(r) == (if keyed_map(paths_view(v@)).contains_key((attempt, kind)) {
            Some(keyed_map(paths_view(v@))[(attempt, kind)])
        } else {
            None
        }),
{
    let ghost pv = paths_view(v@);
    let mut i = v.len();
    while i > 0
        invariant
            i <= v.len(),
            pv == paths_view(v@),
            forall|j: int| i <= j < v.len() ==> (#[trigger] pv[j]).0 != (attempt, kind),
        decreases i,
    {
        i = i - 1;
        if v[i].0.0 == attempt && v[i].0.1 == kind {
            proof {
                lemma_keyed_map_last(pv, i as int);
            }
            return Some(v[i].1.clone());
        }
        assert(pv[i as int].0 != (attempt, kind));
    }
    proof {
        lemma_keyed_map_dom(pv, (attempt, kind));
    }
    None
}

/// `prefix + name` as an owned message.
fn message(prefix: &str, name: &Vec<char>) -> (r: String)
    ensures
        r@ == prefix@ + name@,
{
    string_of(&join_chars(&chars_of(prefix), name))
}

fn collect_step_exec(c: &mut Collected, e: &ArtifactEntry, allow_recovered: bool) -> (r: Result<(), String>)
    ensures
        match r {
            Ok(()) => collect_step(old(c)@, *e, allow_recovered) == Ok::<CollectView, Seq<char>>(final(c)@),
            Err(m) => collect_step(old(c)@, *e, allow_recovered) == Err::<CollectView, Seq<char>>(m@),
        },
{
    let name = chars_of(e.name.as_str());
    if !(has_prefix(&name, &chars_of("07-testing")) || has_prefix(&name, &chars_of("08-eval-report"))) {
        return Ok(());
    }
    if !e.utf8 {
        return Err(string_of(&chars_of("evaluation artifact filename is not valid UTF-8")));
    }
    let (attempt, spelling, kind) = match parse_name(&name) {
        Some(parsed) => parsed,
        None => {
            return Err(message("evaluation artifact filename is malformed or noncanonical: ", &name));
        },
    };
    if attempt != 1 && !allow_recovered {
        return Err(string_of(&chars_of("evaluation attempt is unauthorized before M1-09c3 recovery")));
    }
    if !e.regular_file {
        return Err(message("evaluation artifact is not a real regular file: ", &name));
    }
    match find_spelling(&c.spellings, attempt) {
        Some(current) => {
            if current != spelling {
                let mut m = chars_of("mixed fixed and indexed evaluation attempt ");
                append_chars(&mut m, &decimal_exec(attempt as u64));
                append_chars(&mut m, &chars_of(" authority"));
                return Err(string_of(&m));
            }
        },
        None => {},
    }
    if find_path(&c.paths, attempt, kind).is_some() {
        return Err(message("duplicate evaluation artifact slot: ", &name));
    }
    let path = message("artifacts/", &name);
    let ghost old_pv = paths_view(c.paths@);
    c.spellings.push((attempt, spelling));
    c.paths.push(((attempt, kind), path));
    proof {
        assert(c.spellings@.drop_last() =~= old(c).spellings@);
        assert(paths_view(c.paths@).drop_last() =~= old_pv);
        assert(paths_view(c.paths@).last() == ((attempt, kind), path@));
    }
    Ok(())
}

fn collect_exec(entries: &Vec<ArtifactEntry>, allow_recovered: bool) -> (r: Result<Collected, String>)
    ensures
        match r {
            Ok(c) => collect(entries@, allow_recovered) == Ok::<CollectView, Seq<char>>(c@),
            Err(m) => collect(entries@, allow_recovered) == Err::<CollectView, Seq<char>>(m@),
        },
{
    let mut c = Collected { spellings: Vec::new(), paths: Vec::new() };
    proof {
        assert(entries@.take(0) =~= Seq::<ArtifactEntry>::empty());
        assert(c@ =~= CollectView { spellings: Map::empty(), paths: Map::empty() });
    }
    let mut i: usize = 0;
    while i < entries.len()
        invariant
            i <= entries.len(),
            collect(entries@.take(i as int), allow_recovered) == Ok::<CollectView, Seq<char>>(c@),
        decreases entries.len() - i,
    {
        assert(entries@.take(i + 1).drop_last() =~= entries@.take(i as int));
        assert(entries@.take(i + 1).last() == entries@[i as int]);
        match collect_step_exec(&mut c, &entries[i], allow_recovered) {
            Ok(()) => {},
            Err(m) => {
                proof {
                    lemma_collect_error_sticks(entries@, allow_recovered, i + 1, m@);
                }
                return Err(m);
            },
        }
        i = i + 1;
    }
    assert(entries@.take(entries.len() as int) =~= entries@);
    Ok(c)
}


/// An attempt of a loaded inventory: its spelling, the paths that fill its intent,
/// Testing and EvalReport slots, and its logs, check 1 first, as `(stdout, stderr)`.
pub struct AttemptView {
    pub spelling: Spelling,
    pub intent: Option<Seq<char>>,
    pub testing: Option<Seq<char>>,
    pub report: Option<Seq<char>>,
    pub logs: Seq<(Option<Seq<char>>, Option<Seq<char>>)>,
}

pub open spec fn path_of(st: CollectView, attempt: u32, kind: Kind) -> Option<Seq<char>> {
    if st.paths.contains_key((attempt, kind)) {
        Some(st.paths[(attempt, kind)])
    } else {
        None
    }
}

/// Whether some attempt numbered `k` or above has an artifact.
pub open spec fn has_attempt_from(st: CollectView, k: int) -> bool {
    exists|a: u32| k <= a && #[trigger] st.spellings.contains_key(a)
}

pub open spec fn has_log(st: CollectView, attempt: u32, check: u32) -> bool {
    st.paths.contains_key((attempt, Kind::Stdout(check))) || st.paths.contains_key(
        (attempt, Kind::Stderr(check)),
    )
}

/// Whether `attempt` has a log of check `k` or above.
pub open spec fn has_log_from(st: CollectView, attempt: u32, k: int) -> bool {
    exists|c: u32| k <= c && #[trigger] has_log(st, attempt, c)
}

/// Prepends `acc` to a successful result.
pub open spec fn prepend<T>(acc: Seq<T>, r: Result<Seq<T>, Seq<char>>) -> Result<Seq<T>, Seq<char>> {
    match r {
        Ok(rest) => Ok(acc + rest),
        Err(e) => Err(e),
    }
}

/// The logs of `attempt` from check `k` on, which must be numbered without a gap and
/// paired; when recovered attempts are allowed, the last check of an attempt without
/// Testing evidence or EvalReport may have its stdout alone (a crash between the two).
pub open spec fn validate_logs(st: CollectView, allow_recovered: bool, attempt: u32, k: u32) -> Result<
    Seq<(Option<Seq<char>>, Option<Seq<char>>)>,
    Seq<char>,
>
    decreases u32::MAX - k,
{
    if !has_log_from(st, attempt, k as int) {
        Ok(seq![])
    } else {
        let stdout = path_of(st, attempt, Kind::Stdout(k));
        let stderr = path_of(st, attempt, Kind::Stderr(k));
        let trailing_stdout = allow_recovered && !has_log_from(st, attempt, k + 1) && stdout is Some
            && stderr is None && path_of(st, attempt, Kind::Testing) is None && path_of(
            st,
            attempt,
            Kind::Report,
        ) is None;
        if stdout is None || (stderr is None && !trailing_stdout) {
            Err("evaluation logs are unpaired or have noncontiguous check numbering"@)
        } else if k == u32::MAX {
            Err("evaluation check sequence is exhausted"@)
        } else {
            prepend(seq![(stdout, stderr)], validate_logs(st, allow_recovered, attempt, (k + 1) as u32))
        }
    }
}

/// One attempt's slots: anything but the intent needs the intent, and an EvalReport needs
/// Testing evidence.
pub open spec fn validate_attempt(st: CollectView, allow_recovered: bool, attempt: u32) -> Result<
    AttemptView,
    Seq<char>,
> {
    let intent = path_of(st, attempt, Kind::Intent);
    let testing = path_of(st, attempt, Kind::Testing);
    let report = path_of(st, attempt, Kind::Report);
    if (testing is Some || report is Some || has_log_from(st, attempt, 0)) && intent is None {
        Err("evaluation attempt contains artifacts without intent"@)
    } else if report is Some && testing is None {
        Err("evaluation attempt contains EvalReport without Testing evidence"@)
    } else {
        match validate_logs(st, allow_recovered, attempt, 1) {
            Err(e) => Err(e),
            Ok(logs) => Ok(
                AttemptView { spelling: st.spellings[attempt], intent, testing, report, logs },
            ),
        }
    }
}

/// The attempts from `k` on, which must be numbered without a gap.
pub open spec fn validate_attempts(st: CollectView, allow_recovered: bool, k: u32) -> Result<
    Seq<AttemptView>,
    Seq<char>,
>
    decreases u32::MAX - k,
{
    if !has_attempt_from(st, k as int) {
        Ok(seq![])
    } else if !st.spellings.contains_key(k) {
        Err("evaluation attempt inventory contains a gap or future attempt"@)
    } else {
        match validate_attempt(st, allow_recovered, k) {
            Err(e) => Err(e),
            Ok(a) => if k == u32::MAX {
                Err("evaluation attempt sequence is exhausted"@)
            } else {
                prepend(seq![a], validate_attempts(st, allow_recovered, (k + 1) as u32))
            },
        }
    }
}

/// The inventory that a listing forms: attempt 1 first, or the first rule it breaks.
pub open spec fn load_spec(entries: Seq<ArtifactEntry>, allow_recovered: bool) -> Result<
    Seq<AttemptView>,
    Seq<char>,
> {
    match collect(entries, allow_recovered) {
        Err(e) => Err(e),
        Ok(st) => validate_attempts(st, allow_recovered, 1),
    }
}

/// One loaded attempt.
pub struct AttemptInventory {
    spelling: Spelling,
    intent: Option<String>,
    testing: Option<String>,
    report: Option<String>,
    logs: Vec<(Option<String>, Option<String>)>,
}

pub open spec fn logs_view(v: Seq<(Option<String>, Option<String>)>) -> Seq<
    (Option<Seq<char>>, Option<Seq<char>>),
> {
    v.map_values(|p: (Option<String>, Option<String>)| (opt_view(p.0), opt_view(p.1)))
}

impl View for AttemptInventory {
    type V = AttemptView;

    closed spec fn view(&self) -> AttemptView {
        AttemptView {
            spelling: self.spelling,
            intent: opt_view(self.intent),
            testing: opt_view(self.testing),
            report: opt_view(self.report),
            logs: logs_view(self.logs@),
        }
    }
}

/// The evaluation attempts of a run, attempt 1 first.
pub struct EvaluationAttemptInventory {
    attempts: Vec<AttemptInventory>,
}

impl EvaluationAttemptInventory {
    /// Attempt and check numbers fit in `u32`.
    #[verifier::type_invariant]
    spec fn numbered(&self) -> bool {
        &&& self.attempts.len() < u32::MAX
        &&& forall|i: int| 0 <= i < self.attempts.len() ==> (#[trigger] self.attempts@[i]).logs.len() < u32::MAX
    }
}

impl View for EvaluationAttemptInventory {
    type V = Seq<AttemptView>;

    closed spec fn view(&self) -> Seq<AttemptView> {
        self.attempts@.map_values(|a: AttemptInventory| a@)
    }
}

fn any_attempt_from(c: &Collected, k: u32) -> (r: bool)
    ensures
        r == has_attempt_from(c@, k as int),
{
    let mut i: usize = 0;
    while i < c.spellings.len()
        invariant
            i <= c.spellings.len(),
            forall|j: int| 0 <= j < i ==> (#[trigger] c.spellings@[j]).0 < k,
        decreases c.spellings.len() - i,
    {
        if c.spellings[i].0 >= k {
            proof {
                lemma_keyed_map_dom(c.spellings@, c.spellings@[i as int].0);
                assert(c@.spellings.contains_key(c.spellings@[i as int].0));
            }
            return true;
        }
        i = i + 1;
    }
    assert forall|a: u32| k <= a implies !#[trigger] c@.spellings.contains_key(a) by {
        lemma_keyed_map_dom(c.spellings@, a);
    }
    false
}

/// Whether `key` is a log slot of `attempt` for check `k` or above.
pub open spec fn log_key_from(key: (u32, Kind), attempt: u32, k: int) -> bool {
    key.0 == attempt && match key.1 {
        Kind::Stdout(n) => k <= n,
        Kind::Stderr(n) => k <= n,
        _ => false,
    }
}

fn any_log_from(c: &Collected, attempt: u32, k: u64) -> (r: bool)
    ensures
        r == has_log_from(c@, attempt, k as int),
{
    let ghost pv = paths_view(c.paths@);
    let mut i: usize = 0;
    while i < c.paths.len()
        invariant
            i <= c.paths.len(),
            pv == paths_view(c.paths@),
            forall|j: int| 0 <= j < i ==> !log_key_from(#[trigger] pv[j].0, attempt, k as int),
        decreases c.paths.len() - i,
    {
        let key = c.paths[i].0;
        let found = key.0 == attempt && match key.1 {
            Kind::Stdout(n) => k <= n as u64,
            Kind::Stderr(n) => k <= n as u64,
            _ => false,
        };
        if found {
            proof {
                lemma_keyed_map_dom(pv, pv[i as int].0);
                match key.1 {
                    Kind::Stdout(n) => assert(has_log(c@, attempt, n)),
                    Kind::Stderr(n) => assert(has_log(c@, attempt, n)),
                    _ => {},
                }
            }
            return true;
        }
        i = i + 1;
    }
    assert forall|n: u32| k <= n implies !#[trigger] has_log(c@, attempt, n) by {
        lemma_keyed_map_dom(pv, (attempt, Kind::Stdout(n)));
        lemma_keyed_map_dom(pv, (attempt, Kind::Stderr(n)));
        if c@.paths.contains_key((attempt, Kind::Stdout(n))) {
            let j = choose|j: int| 0 <= j < pv.len() && (#[trigger] pv[j]).0 == (attempt, Kind::Stdout(n));
            assert(log_key_from(pv[j].0, attempt, k as int));
        }
        if c@.paths.contains_key((attempt, Kind::Stderr(n))) {
            let j = choose|j: int| 0 <= j < pv.len() && (#[trigger] pv[j]).0 == (attempt, Kind::Stderr(n));
            assert(log_key_from(pv[j].0, attempt, k as int));
        }
    }
    false
}


fn validate_logs_exec(c: &Collected, allow_recovered: bool, attempt: u32) -> (r: Result<
    Vec<(Option<String>, Option<String>)>,
    String,
>)
    ensures
        match r {
            Ok(v) => validate_logs(c@, allow_recovered, attempt, 1) == Ok::<
                Seq<(Option<Seq<char>>, Option<Seq<char>>)>,
                Seq<char>,
            >(logs_view(v@)) && v.len() < u32::MAX,
            Err(m) => validate_logs(c@, allow_recovered, attempt, 1) == Err::<
                Seq<(Option<Seq<char>>, Option<Seq<char>>)>,
                Seq<char>,
            >(m@),
        },
{
    let mut out: Vec<(Option<String>, Option<String>)> = Vec::new();
    let mut k: u32 = 1;
    assert(prepend(logs_view(out@), validate_logs(c@, allow_recovered, attempt, 1)) == validate_logs(
        c@,
        allow_recovered,
        attempt,
        1,
    )) by {
        assert(logs_view(out@) =~= Seq::empty());
        match validate_logs(c@, allow_recovered, attempt, 1) {
            Ok(rest) => assert(logs_view(out@) + rest =~= rest),
            Err(_) => {},
        }
    }
    loop
        invariant
            1 <= k,
            out.len() == k - 1,
            validate_logs(c@, allow_recovered, attempt, 1) == prepend(
                logs_view(out@),
                validate_logs(c@, allow_recovered, attempt, k),
            ),
        decreases u32::MAX - k,
    {
        if !any_log_from(c, attempt, k as u64) {
            assert(logs_view(out@) + seq![] =~= logs_view(out@));
            return Ok(out);
        }
        let stdout = find_path(&c.paths, attempt, Kind::Stdout(k));
        let stderr = find_path(&c.paths, attempt, Kind::Stderr(k));
        let trailing_stdout = allow_recovered && !any_log_from(c, attempt, k as u64 + 1)
            && stdout.is_some() && stderr.is_none() && find_path(
            &c.paths,
            attempt,
            Kind::Testing,
        ).is_none() && find_path(&c.paths, attempt, Kind::Report).is_none();
        if stdout.is_none() || (stderr.is_none() && !trailing_stdout) {
            return Err(
                string_of(
                    &chars_of("evaluation logs are unpaired or have noncontiguous check numbering"),
                ),
            );
        }
        if k == u32::MAX {
            return Err(string_of(&chars_of("evaluation check sequence is exhausted")));
        }
        let ghost before = logs_view(out@);
        let ghost pair = (opt_view(stdout), opt_view(stderr));
        out.push((stdout, stderr));
        proof {
            assert(logs_view(out@) =~= before.push(pair));
            match validate_logs(c@, allow_recovered, attempt, (k + 1) as u32) {
                Ok(rest) => assert(before + (seq![pair] + rest) =~= before.push(pair) + rest),
                Err(_) => {},
            }
        }
        k = k + 1;
    }
}

fn validate_attempt_exec(c: &Collected, allow_recovered: bool, attempt: u32) -> (r: Result<
    AttemptInventory,
    String,
>)
    requires
        c@.spellings.contains_key(attempt),
    ensures
        match r {
            Ok(a) => validate_attempt(c@, allow_recovered, attempt) == Ok::<AttemptView, Seq<char>>(a@)
                && a.logs.len() < u32::MAX,
            Err(m) => validate_attempt(c@, allow_recovered, attempt) == Err::<AttemptView, Seq<char>>(m@),
        },
{
    let intent = find_path(&c.paths, attempt, Kind::Intent);
    let testing = find_path(&c.paths, attempt, Kind::Testing);
    let report = find_path(&c.paths, attempt, Kind::Report);
    if (testing.is_some() || report.is_some() || any_log_from(c, attempt, 0)) && intent.is_none() {
        return Err(string_of(&chars_of("evaluation attempt contains artifacts without intent")));
    }
    if report.is_some() && testing.is_none() {
        return Err(
            string_of(&chars_of("evaluation attempt contains EvalReport without Testing evidence")),
        );
    }
    let logs = validate_logs_exec(c, allow_recovered, attempt)?;
    let spelling = match find_spelling(&c.spellings, attempt) {
        Some(s) => s,
        None => Spelling::Fixed,
    };
    Ok(AttemptInventory { spelling, intent, testing, report, logs })
}

fn validate_attempts_exec(c: &Collected, allow_recovered: bool) -> (r: Result<
    Vec<AttemptInventory>,
    String,
>)
    ensures
        match r {
            Ok(v) => validate_attempts(c@, allow_recovered, 1) == Ok::<Seq<AttemptView>, Seq<char>>(
                v@.map_values(|a: AttemptInventory| a@),
            ) && v.len() < u32::MAX && forall|i: int|
                0 <= i < v.len() ==> (#[trigger] v@[i]).logs.len() < u32::MAX,
            Err(m) => validate_attempts(c@, allow_recovered, 1) == Err::<Seq<AttemptView>, Seq<char>>(
                m@,
            ),
        },
{
    let mut out: Vec<AttemptInventory> = Vec::new();
    let mut k: u32 = 1;
    assert(prepend(out@.map_values(|a: AttemptInventory| a@), validate_attempts(c@, allow_recovered, 1))
        == validate_attempts(c@, allow_recovered, 1)) by {
        assert(out@.map_values(|a: AttemptInventory| a@) =~= Seq::empty());
        match validate_attempts(c@, allow_recovered, 1) {
            Ok(rest) => assert(out@.map_values(|a: AttemptInventory| a@) + rest =~= rest),
            Err(_) => {},
        }
    }
    loop
        invariant
            1 <= k,
            out.len() == k - 1,
            forall|i: int| 0 <= i < out.len() ==> (#[trigger] out@[i]).logs.len() < u32::MAX,
            validate_attempts(c@, allow_recovered, 1) == prepend(
                out@.map_values(|a: AttemptInventory| a@),
                validate_attempts(c@, allow_recovered, k),
            ),
        decreases u32::MAX - k,
    {
        if !any_attempt_from(c, k) {
            assert(out@.map_values(|a: AttemptInventory| a@) + seq![] =~= out@.map_values(
                |a: AttemptInventory| a@,
            ));
            return Ok(out);
        }
        if find_spelling(&c.spellings, k).is_none() {
            return Err(
                string_of(&chars_of("evaluation attempt inventory contains a gap or future attempt")),
            );
        }
        let a = validate_attempt_exec(c, allow_recovered, k)?;
        if k == u32::MAX {
            return Err(string_of(&chars_of("evaluation attempt sequence is exhausted")));
        }
        let ghost before = out@.map_values(|a: AttemptInventory| a@);
        let ghost av = a@;
        out.push(a);
        proof {
            assert(out@.map_values(|a: AttemptInventory| a@) =~= before.push(av));
            match validate_attempts(c@, allow_recovered, (k + 1) as u32) {
                Ok(rest) => assert(before + (seq![av] + rest) =~= before.push(av) + rest),
                Err(_) => {},
            }
        }
        k = k + 1;
    }
}

impl EvaluationAttemptInventory {
    /// The inventory of a run's `artifacts/` listing, in which only attempt 1 may exist
    /// and every log is paired.
    pub fn load(entries: &Vec<ArtifactEntry>) -> (r: Result<Self, String>)
        ensures
            match r {
                Ok(inv) => load_spec(entries@, false) == Ok::<Seq<AttemptView>, Seq<char>>(inv@),
                Err(m) => load_spec(entries@, false) == Err::<Seq<AttemptView>, Seq<char>>(m@),
            },
    {
        Self::load_with_mode(entries, false)
    }

    /// The inventory as invalidation reads it: recovered attempts may exist, and the last
    /// attempt may end in a stdout log whose stderr was never published.
    pub fn load_for_invalidation(entries: &Vec<ArtifactEntry>) -> (r: Result<Self, String>)
        ensures
            match r {
                Ok(inv) => load_spec(entries@, true) == Ok::<Seq<AttemptView>, Seq<char>>(inv@),
                Err(m) => load_spec(entries@, true) == Err::<Seq<AttemptView>, Seq<char>>(m@),
            },
    {
        Self::load_with_mode(entries, true)
    }

    fn load_with_mode(entries: &Vec<ArtifactEntry>, allow_recovered: bool) -> (r: Result<Self, String>)
        ensures
            match r {
                Ok(inv) => load_spec(entries@, allow_recovered) == Ok::<Seq<AttemptView>, Seq<char>>(
                    inv@,
                ),
                Err(m) => load_spec(entries@, allow_recovered) == Err::<Seq<AttemptView>, Seq<char>>(
                    m@,
                ),
            },
    {
        let c = collect_exec(entries, allow_recovered)?;
        let attempts = validate_attempts_exec(&c, allow_recovered)?;
        Ok(EvaluationAttemptInventory { attempts })
    }

    /// Whether the run has no evaluation artifact.
    pub fn is_empty(&self) -> (r: bool)
        ensures
            r == (self@.len() == 0),
    {
        self.attempts.len() == 0
    }
}


/// The paths that the latest attempt's recovery adopts.
#[derive(Debug, Clone, PartialEq, Eq)]
pub struct EvaluationRecoveryPrefixPaths {
    pub attempt: u32,
    pub spelling: Spelling,
    pub intent: String,
    pub testing: String,
    pub report: String,
    pub report_present: bool,
}

/// The published prefix of an attempt that invalidation retires, in publication order.
#[derive(Debug, Clone, PartialEq, Eq)]
pub struct EvaluationInvalidationPrefixPaths {
    pub attempt: u32,
    pub spelling: Spelling,
    pub paths: Vec<String>,
    pub testing_present: bool,
    pub report_present: bool,
    pub complete_log_pairs: u32,
    pub trailing_stdout: bool,
}

/// The log paths that a check of Testing evidence names.
#[derive(Debug, Clone, PartialEq, Eq)]
pub struct CheckLogPaths {
    pub stdout_path: Option<String>,
    pub stderr_path: Option<String>,
}

pub open spec fn check_logs_view(checks: Seq<CheckLogPaths>) -> Seq<(Option<Seq<char>>, Option<Seq<char>>)> {
    checks.map_values(|c: CheckLogPaths| (opt_view(c.stdout_path), opt_view(c.stderr_path)))
}

pub open spec fn strings_view(v: Seq<String>) -> Seq<Seq<char>> {
    v.map_values(|s: String| s@)
}

pub open spec fn require_selected_spec(
    inv: Seq<AttemptView>,
    attempt: u32,
    testing: Seq<char>,
    report: Seq<char>,
) -> Result<(), Seq<char>> {
    if !(1 <= attempt <= inv.len()) {
        Err("selected evaluation attempt is absent"@)
    } else {
        let selected = inv[attempt - 1];
        if attempt != inv.len() || selected.testing != Some(testing) || selected.report != Some(
            report,
        ) || selected.intent is None {
            Err("final evaluation references do not select one exact latest attempt"@)
        } else {
            Ok(())
        }
    }
}

/// The report path of an attempt in its spelling.
pub open spec fn canonical_report_path(attempt: u32, spelling: Spelling) -> Seq<char> {
    match spelling {
        Spelling::Fixed => "artifacts/08-eval-report.json"@,
        Spelling::Indexed => indexed_report_path(attempt),
    }
}

/// `(attempt, spelling, intent, testing, report, report_present)` of the latest attempt.
pub open spec fn recovery_prefix_spec(inv: Seq<AttemptView>) -> Result<
    (u32, Spelling, Seq<char>, Seq<char>, Seq<char>, bool),
    Seq<char>,
> {
    if inv.len() == 0 {
        Err("adoption requires an exact evaluation attempt"@)
    } else {
        let attempt = inv.len() as u32;
        let selected = inv.last();
        if selected.intent is None {
            Err("adoption evaluation prefix lost execution intent"@)
        } else if selected.testing is None {
            Err("adoption evaluation prefix lost Testing evidence"@)
        } else {
            let report = canonical_report_path(attempt, selected.spelling);
            if selected.report is Some && selected.report != Some(report) {
                Err("adoption evaluation prefix selects a noncanonical EvalReport"@)
            } else {
                Ok(
                    (
                        attempt,
                        selected.spelling,
                        selected.intent->0,
                        selected.testing->0,
                        report,
                        selected.report is Some,
                    ),
                )
            }
        }
    }
}

/// The log paths of an attempt in publication order, each stdout before its stderr, or
/// `None` where a log lacks its stdout.
pub open spec fn log_paths(logs: Seq<(Option<Seq<char>>, Option<Seq<char>>)>) -> Option<Seq<Seq<char>>>
    decreases logs.len(),
{
    if logs.len() == 0 {
        Some(seq![])
    } else {
        match log_paths(logs.drop_last()) {
            None => None,
            Some(p) => match logs.last().0 {
                None => None,
                Some(stdout) => match logs.last().1 {
                    Some(stderr) => Some(p.push(stdout).push(stderr)),
                    None => Some(p.push(stdout)),
                },
            },
        }
    }
}

/// The number of the last check whose stderr was published, or 0.
pub open spec fn complete_log_pairs(logs: Seq<(Option<Seq<char>>, Option<Seq<char>>)>) -> nat
    decreases logs.len(),
{
    if logs.len() == 0 {
        0
    } else if logs.last().1 is Some {
        logs.len()
    } else {
        complete_log_pairs(logs.drop_last())
    }
}

pub open spec fn has_trailing_stdout(logs: Seq<(Option<Seq<char>>, Option<Seq<char>>)>) -> bool {
    exists|i: int| 0 <= i < logs.len() && (#[trigger] logs[i]).1 is None
}

/// `(paths, complete_log_pairs, trailing_stdout)` of attempt `attempt`'s prefix.
pub open spec fn invalidation_prefix_spec(inv: Seq<AttemptView>, attempt: u32) -> Result<
    (Seq<Seq<char>>, nat, bool),
    Seq<char>,
> {
    if !(1 <= attempt <= inv.len()) {
        Err("invalidation evaluation attempt is absent"@)
    } else {
        let selected = inv[attempt - 1];
        if selected.intent is None {
            Err("invalidation evaluation prefix lost execution intent"@)
        } else {
            match log_paths(selected.logs) {
                None => Err("invalidation evaluation prefix lost stdout log"@),
                Some(logs) => {
                    let with_testing = match selected.testing {
                        Some(t) => seq![selected.intent->0] + logs + seq![t],
                        None => seq![selected.intent->0] + logs,
                    };
                    let paths = match selected.report {
                        Some(r) => with_testing.push(r),
                        None => with_testing,
                    };
                    Ok((paths, complete_log_pairs(selected.logs), has_trailing_stdout(selected.logs)))
                },
            }
        }
    }
}

pub open spec fn validate_selected_logs_spec(
    inv: Seq<AttemptView>,
    attempt: u32,
    checks: Seq<CheckLogPaths>,
) -> Result<(), Seq<char>> {
    if !(1 <= attempt <= inv.len()) {
        Err("selected evaluation attempt is absent"@)
    } else if inv[attempt - 1].logs.len() != checks.len() {
        Err("Testing evidence does not select every and only attempt log"@)
    } else if inv[attempt - 1].logs != check_logs_view(checks) {
        Err("Testing evidence contains cross-attempt or surplus log paths"@)
    } else {
        Ok(())
    }
}

pub open spec fn require_recovery_prefix_spec(
    inv: Seq<AttemptView>,
    attempt: u32,
    intent: Seq<char>,
    testing: Seq<char>,
    report: Seq<char>,
    allow_missing_report: bool,
    checks: Seq<CheckLogPaths>,
) -> Result<bool, Seq<char>> {
    if !(1 <= attempt <= inv.len()) {
        Err("recovery evaluation attempt is absent"@)
    } else {
        let selected = inv[attempt - 1];
        let report_present = selected.report == Some(report);
        if selected.intent != Some(intent) || selected.testing != Some(testing) || (!report_present
            && (!allow_missing_report || selected.report is Some)) {
            Err("recovery prefix does not select one exact latest attempt"@)
        } else {
            match validate_selected_logs_spec(inv, attempt, checks) {
                Err(e) => Err(e),
                Ok(()) => Ok(report_present),
            }
        }
    }
}

fn opt_eq(o: &Option<String>, s: &str) -> (r: bool)
    ensures
        r == (opt_view(*o) == Some(s@)),
{
    match o {
        Some(v) => seq_eq(&chars_of(v.as_str()), &chars_of(s)),
        None => false,
    }
}

fn opt_same(a: &Option<String>, b: &Option<String>) -> (r: bool)
    ensures
        r == (opt_view(*a) == opt_view(*b)),
{
    match (a, b) {
        (Some(x), Some(y)) => seq_eq(&chars_of(x.as_str()), &chars_of(y.as_str())),
        (None, None) => true,
        _ => false,
    }
}

proof fn lemma_log_paths_none_sticks(logs: Seq<(Option<Seq<char>>, Option<Seq<char>>)>, i: int)
    requires
        0 <= i <= logs.len(),
        log_paths(logs.take(i)) is None,
    ensures
        log_paths(logs) is None,
    decreases logs.len() - i,
{
    if i < logs.len() {
        assert(logs.take(i + 1).drop_last() =~= logs.take(i));
        lemma_log_paths_none_sticks(logs, i + 1);
    } else {
        assert(logs.take(i) =~= logs);
    }
}

impl EvaluationAttemptInventory {
    fn selected(&self, attempt: u32) -> (r: Option<&AttemptInventory>)
        ensures
            match r {
                Some(a) => 1 <= attempt <= self@.len() && a@ == self@[attempt - 1]
                    && a.logs.len() < u32::MAX,
                None => !(1 <= attempt <= self@.len()),
            },
    {
        proof {
            use_type_invariant(self);
        }
        if attempt == 0 || attempt as usize > self.attempts.len() {
            return None;
        }
        Some(&self.attempts[attempt as usize - 1])
    }

    /// Checks that final evaluation references name exactly the latest attempt's
    /// Testing evidence and EvalReport.
    pub fn require_selected(&self, attempt: u32, testing: &str, report: &str) -> (r: Result<
        (),
        String,
    >)
        ensures
            match r {
                Ok(()) => require_selected_spec(self@, attempt, testing@, report@) is Ok,
                Err(m) => require_selected_spec(self@, attempt, testing@, report@) == Err::<
                    (),
                    Seq<char>,
                >(m@),
            },
    {
        let selected = match self.selected(attempt) {
            Some(a) => a,
            None => {
                return Err(string_of(&chars_of("selected evaluation attempt is absent")));
            },
        };
        if attempt as usize != self.attempts.len() || !opt_eq(&selected.testing, testing) || !opt_eq(
            &selected.report,
            report,
        ) || selected.intent.is_none() {
            return Err(
                string_of(
                    &chars_of("final evaluation references do not select one exact latest attempt"),
                ),
            );
        }
        Ok(())
    }

    /// The execution intent path of `attempt`, if the attempt exists.
    pub fn intent_path(&self, attempt: u32) -> (r: Option<&str>)
        ensures
            match r {
                Some(p) => 1 <= attempt <= self@.len() && self@[attempt - 1].intent == Some(p@),
                None => !(1 <= attempt <= self@.len()) || self@[attempt - 1].intent is None,
            },
    {
        match self.selected(attempt) {
            Some(a) => match &a.intent {
                Some(p) => Some(p.as_str()),
                None => None,
            },
            None => None,
        }
    }

    /// The latest attempt's paths, with the EvalReport path its spelling prescribes.
    pub fn recovery_prefix_paths(&self) -> (r: Result<EvaluationRecoveryPrefixPaths, String>)
        ensures
            match r {
                Ok(p) => recovery_prefix_spec(self@) == Ok::<
                    (u32, Spelling, Seq<char>, Seq<char>, Seq<char>, bool),
                    Seq<char>,
                >((p.attempt, p.spelling, p.intent@, p.testing@, p.report@, p.report_present)),
                Err(m) => recovery_prefix_spec(self@) == Err::<
                    (u32, Spelling, Seq<char>, Seq<char>, Seq<char>, bool),
                    Seq<char>,
                >(m@),
            },
    {
        proof {
            use_type_invariant(self);
        }
        let n = self.attempts.len();
        if n == 0 {
            return Err(string_of(&chars_of("adoption requires an exact evaluation attempt")));
        }
        let attempt = n as u32;
        let selected = &self.attempts[n - 1];
        let intent = match &selected.intent {
            Some(p) => p.clone(),
            None => {
                return Err(string_of(&chars_of("adoption evaluation prefix lost execution intent")));
            },
        };
        let testing = match &selected.testing {
            Some(p) => p.clone(),
            None => {
                return Err(string_of(&chars_of("adoption evaluation prefix lost Testing evidence")));
            },
        };
        let report = match selected.spelling {
            Spelling::Fixed => string_of(&chars_of("artifacts/08-eval-report.json")),
            Spelling::Indexed => string_of(
                &numbered("artifacts/08-eval-report.attempt-", attempt as u64, ".json"),
            ),
        };
        if selected.report.is_some() && !opt_eq(&selected.report, report.as_str()) {
            return Err(
                string_of(&chars_of("adoption evaluation prefix selects a noncanonical EvalReport")),
            );
        }
        Ok(EvaluationRecoveryPrefixPaths {
            attempt,
            spelling: selected.spelling,
            intent,
            testing,
            report,
            report_present: selected.report.is_some(),
        })
    }

    /// The published prefix of the latest attempt.
    pub fn invalidation_prefix_paths(&self) -> (r: Result<EvaluationInvalidationPrefixPaths, String>)
        ensures
            self@.len() == 0 ==> r is Err && r->Err_0@
                == "invalidation requires a factual evaluation prefix"@,
            self@.len() > 0 ==> match r {
                Ok(p) => p.attempt == self@.len() && invalidation_prefix_spec(self@, p.attempt) == Ok::<
                    (Seq<Seq<char>>, nat, bool),
                    Seq<char>,
                >(
                    (strings_view(p.paths@), p.complete_log_pairs as nat, p.trailing_stdout),
                ) && p.spelling == self@.last().spelling && p.testing_present == self@.last().testing is Some
                    && p.report_present == self@.last().report is Some,
                Err(m) => invalidation_prefix_spec(self@, self@.len() as u32) == Err::<
                    (Seq<Seq<char>>, nat, bool),
                    Seq<char>,
                >(m@),
            },
    {
        proof {
            use_type_invariant(self);
        }
        if self.attempts.len() == 0 {
            return Err(string_of(&chars_of("invalidation requires a factual evaluation prefix")));
        }
        self.invalidation_prefix_paths_for(self.attempts.len() as u32)
    }

    /// The published prefix of `attempt`: its intent, its logs in check order, its
    /// Testing evidence and its EvalReport, as far as each was published.
    pub fn invalidation_prefix_paths_for(&self, attempt: u32) -> (r: Result<
        EvaluationInvalidationPrefixPaths,
        String,
    >)
        ensures
            match r {
                Ok(p) => p.attempt == attempt && invalidation_prefix_spec(self@, attempt) == Ok::<
                    (Seq<Seq<char>>, nat, bool),
                    Seq<char>,
                >(
                    (strings_view(p.paths@), p.complete_log_pairs as nat, p.trailing_stdout),
                ) && p.spelling == self@[attempt - 1].spelling && p.testing_present
                    == self@[attempt - 1].testing is Some && p.report_present == self@[attempt
                    - 1].report is Some,
                Err(m) => invalidation_prefix_spec(self@, attempt) == Err::<
                    (Seq<Seq<char>>, nat, bool),
                    Seq<char>,
                >(m@),
            },
    {
        let selected = match self.selected(attempt) {
            Some(a) => a,
            None => {
                return Err(string_of(&chars_of("invalidation evaluation attempt is absent")));
            },
        };
        let intent = match &selected.intent {
            Some(p) => p.clone(),
            None => {
                return Err(
                    string_of(&chars_of("invalidation evaluation prefix lost execution intent")),
                );
            },
        };
        let ghost logs = logs_view(selected.logs@);
        let mut log_list: Vec<String> = Vec::new();
        let mut complete: u32 = 0;
        let mut trailing = false;
        let mut j: usize = 0;
        assert(logs.take(0) =~= Seq::<(Option<Seq<char>>, Option<Seq<char>>)>::empty());
        assert(strings_view(log_list@) =~= Seq::<Seq<char>>::empty());
        while j < selected.logs.len()
            invariant
                j <= selected.logs.len() < u32::MAX,
                1 <= attempt <= self@.len(),
                selected@ == self@[attempt - 1],
                selected.intent is Some,
                logs == logs_view(selected.logs@),
                log_paths(logs.take(j as int)) == Some(strings_view(log_list@)),
                complete as nat == complete_log_pairs(logs.take(j as int)),
                trailing == has_trailing_stdout(logs.take(j as int)),
            decreases selected.logs.len() - j,
        {
            let ghost prev = logs.take(j as int);
            assert(logs.take(j + 1).drop_last() =~= prev);
            assert(logs.take(j + 1).last() == logs[j as int]);
            let stdout = match &selected.logs[j].0 {
                Some(p) => p.clone(),
                None => {
                    proof {
                        assert(logs[j as int].0 is None);
                        assert(log_paths(logs.take(j + 1)) is None);
                        lemma_log_paths_none_sticks(logs, j + 1);
                    }
                    return Err(string_of(&chars_of("invalidation evaluation prefix lost stdout log")));
                },
            };
            let ghost before = strings_view(log_list@);
            log_list.push(stdout);
            assert(strings_view(log_list@) =~= before.push(stdout@));
            match &selected.logs[j].1 {
                Some(p) => {
                    let ghost mid = strings_view(log_list@);
                    log_list.push(p.clone());
                    assert(strings_view(log_list@) =~= mid.push(p@));
                    complete = (j + 1) as u32;
                },
                None => {
                    trailing = true;
                    assert(logs.take(j + 1)[j as int].1 is None);
                },
            }
            assert(has_trailing_stdout(logs.take(j + 1)) == (has_trailing_stdout(prev) || logs[j as int].1 is None)) by {
                if has_trailing_stdout(prev) {
                    let i = choose|i: int| 0 <= i < prev.len() && (#[trigger] prev[i]).1 is None;
                    assert(logs.take(j + 1)[i] == prev[i]);
                }
                if has_trailing_stdout(logs.take(j + 1)) && logs[j as int].1 is Some {
                    let i = choose|i: int| 0 <= i < j + 1 && (#[trigger] logs.take(j + 1)[i]).1 is None;
                    assert(prev[i] == logs.take(j + 1)[i]);
                }
            }
            j = j + 1;
        }
        assert(logs.take(selected.logs.len() as int) =~= logs);
        let mut paths: Vec<String> = Vec::new();
        paths.push(intent);
        let ghost with_intent = strings_view(paths@);
        let mut i: usize = 0;
        while i < log_list.len()
            invariant
                i <= log_list.len(),
                strings_view(paths@) == with_intent + strings_view(log_list@).take(i as int),
            decreases log_list.len() - i,
        {
            let ghost before = strings_view(paths@);
            paths.push(log_list[i].clone());
            assert(strings_view(paths@) =~= before.push(log_list@[i as int]@));
            assert(strings_view(log_list@).take(i + 1) =~= strings_view(log_list@).take(i as int).push(
                log_list@[i as int]@,
            ));
            i = i + 1;
        }
        assert(strings_view(log_list@).take(log_list.len() as int) =~= strings_view(log_list@));
        assert(with_intent =~= seq![opt_view(selected.intent)->0]);
        let ghost base = strings_view(paths@);
        match &selected.testing {
            Some(t) => {
                paths.push(t.clone());
                assert(strings_view(paths@) =~= base + seq![t@]);
            },
            None => {},
        }
        let ghost with_testing = strings_view(paths@);
        match &selected.report {
            Some(rp) => {
                paths.push(rp.clone());
                assert(strings_view(paths@) =~= with_testing.push(rp@));
            },
            None => {},
        }
        Ok(EvaluationInvalidationPrefixPaths {
            attempt,
            spelling: selected.spelling,
            paths,
            testing_present: selected.testing.is_some(),
            report_present: selected.report.is_some(),
            complete_log_pairs: complete,
            trailing_stdout: trailing,
        })
    }

    /// Checks that Testing evidence names exactly the attempt's logs, check by check.
    pub fn validate_selected_logs(&self, attempt: u32, checks: &[CheckLogPaths]) -> (r: Result<
        (),
        String,
    >)
        ensures
            match r {
                Ok(()) => validate_selected_logs_spec(self@, attempt, checks@) is Ok,
                Err(m) => validate_selected_logs_spec(self@, attempt, checks@) == Err::<
                    (),
                    Seq<char>,
                >(m@),
            },
    {
        let selected = match self.selected(attempt) {
            Some(a) => a,
            None => {
                return Err(string_of(&chars_of("selected evaluation attempt is absent")));
            },
        };
        if selected.logs.len() != checks.len() {
            return Err(
                string_of(&chars_of("Testing evidence does not select every and only attempt log")),
            );
        }
        let ghost logs = logs_view(selected.logs@);
        let ghost wanted = check_logs_view(checks@);
        let mut i: usize = 0;
        while i < checks.len()
            invariant
                i <= checks.len() == selected.logs.len(),
                1 <= attempt <= self@.len(),
                selected@ == self@[attempt - 1],
                logs == logs_view(selected.logs@),
                wanted == check_logs_view(checks@),
                forall|j: int| 0 <= j < i ==> #[trigger] logs[j] == wanted[j],
            decreases checks.len() - i,
        {
            if !opt_same(&selected.logs[i].0, &checks[i].stdout_path) || !opt_same(
                &selected.logs[i].1,
                &checks[i].stderr_path,
            ) {
                assert(logs[i as int] == (opt_view(selected.logs@[i as int].0), opt_view(selected.logs@[i as int].1)));
                assert(wanted[i as int] == (opt_view(checks@[i as int].stdout_path), opt_view(checks@[i as int].stderr_path)));
                assert(logs[i as int] != wanted[i as int]);
                assert(logs != wanted);
                return Err(
                    string_of(&chars_of("Testing evidence contains cross-attempt or surplus log paths")),
                );
            }
            i = i + 1;
        }
        assert(logs =~= wanted);
        Ok(())
    }

    /// Checks that a recovery names exactly one attempt's intent and Testing evidence,
    /// and its EvalReport unless that may still be missing; returns whether the
    /// EvalReport is present.
    pub fn require_recovery_prefix(
        &self,
        attempt: u32,
        intent: &str,
        testing: &str,
        report: &str,
        allow_missing_report: bool,
        checks: &[CheckLogPaths],
    ) -> (r: Result<bool, String>)
        ensures
            match r {
                Ok(present) => require_recovery_prefix_spec(
                    self@,
                    attempt,
                    intent@,
                    testing@,
                    report@,
                    allow_missing_report,
                    checks@,
                ) == Ok::<bool, Seq<char>>(present),
                Err(m) => require_recovery_prefix_spec(
                    self@,
                    attempt,
                    intent@,
                    testing@,
                    report@,
                    allow_missing_report,
                    checks@,
                ) == Err::<bool, Seq<char>>(m@),
            },
    {
        let selected = match self.selected(attempt) {
            Some(a) => a,
            None => {
                return Err(string_of(&chars_of("recovery evaluation attempt is absent")));
            },
        };
        let report_present = opt_eq(&selected.report, report);
        if !opt_eq(&selected.intent, intent) || !opt_eq(&selected.testing, testing) || (
        !report_present && (!allow_missing_report || selected.report.is_some())) {
            return Err(
                string_of(&chars_of("recovery prefix does not select one exact latest attempt")),
            );
        }
        self.validate_selected_logs(attempt, checks)?;
        Ok(report_present)
    }
}

pub open spec fn selected_attempt_spec(testing_path: Seq<char>, report_path: Seq<char>) -> Result<
    (u32, Spelling),
    Seq<char>,
> {
    match strip_prefix(testing_path, "artifacts/"@) {
        None => Err("Testing artifact path is not canonical"@),
        Some(testing_name) => match strip_prefix(report_path, "artifacts/"@) {
            None => Err("EvalReport artifact path is not canonical"@),
            Some(report_name) => match parse_name_spec(testing_name) {
                None => Err("Testing artifact path is not canonical"@),
                Some((ta, ts, tk)) => match parse_name_spec(report_name) {
                    None => Err("EvalReport artifact path is not canonical"@),
                    Some((ra, rs, rk)) => if tk != Kind::Testing || rk != Kind::Report || ta != ra
                        || ts != rs {
                        Err("Testing and EvalReport select different evaluation attempts"@)
                    } else {
                        Ok((ta, ts))
                    },
                },
            },
        },
    }
}

/// The attempt that a pair of Testing and EvalReport paths selects together.
pub fn selected_attempt(testing_path: &str, report_path: &str) -> (r: Result<(u32, Spelling), String>)
    ensures
        match r {
            Ok(v) => selected_attempt_spec(testing_path@, report_path@) == Ok::<(u32, Spelling), Seq<char>>(v),
            Err(m) => selected_attempt_spec(testing_path@, report_path@) == Err::<(u32, Spelling), Seq<char>>(m@),
        },
{
    let prefix = chars_of("artifacts/");
    let testing_name = match strip_prefix_exec(&chars_of(testing_path), &prefix) {
        Some(n) => n,
        None => {
            return Err(string_of(&chars_of("Testing artifact path is not canonical")));
        },
    };
    let report_name = match strip_prefix_exec(&chars_of(report_path), &prefix) {
        Some(n) => n,
        None => {
            return Err(string_of(&chars_of("EvalReport artifact path is not canonical")));
        },
    };
    let (ta, ts, tk) = match parse_name(&testing_name) {
        Some(p) => p,
        None => {
            return Err(string_of(&chars_of("Testing artifact path is not canonical")));
        },
    };
    let (ra, rs, rk) = match parse_name(&report_name) {
        Some(p) => p,
        None => {
            return Err(string_of(&chars_of("EvalReport artifact path is not canonical")));
        },
    };
    if tk != Kind::Testing || rk != Kind::Report || ta != ra || ts != rs {
        return Err(
            string_of(&chars_of("Testing and EvalReport select different evaluation attempts")),
        );
    }
    Ok((ta, ts))
}

/// Whether a spelling is the fixed one.
pub fn fixed_spelling(spelling: Spelling) -> (r: bool)
    ensures
        r == (spelling == Spelling::Fixed),
{
    spelling == Spelling::Fixed
}


proof fn lemma_pad3_digits(n: u32)
    requires
        n > 0,
    ensures
        all_digits(pad3(n as nat)),
        pad3(n as nat).len() >= 3,
        canonical_number_spec(pad3(n as nat)) == Some(n),
{
    lemma_canonical_roundtrip(n);
}

/// `digits + tail` splits at the first `.` of `tail` when `digits` has no `.`.
proof fn lemma_split_after_digits(digits: Seq<char>, tail: Seq<char>)
    requires
        all_digits(digits),
        tail.len() > 0,
        tail[0] == '.',
    ensures
        split_once(digits + tail, '.') == Some((digits, tail.skip(1))),
{
    let s = digits + tail;
    assert(s[digits.len() as int] == '.');
    assert forall|j: int| 0 <= j < digits.len() implies s[j] != '.' by {
        assert(s[j] == digits[j]);
        assert(is_digit(digits[j]));
    }
    lemma_find_char_at(s, '.', digits.len() as int);
    assert(s.subrange(0, digits.len() as int) =~= digits);
    assert(s.subrange(digits.len() as int + 1, s.len() as int) =~= tail.skip(1));
}

/// The Testing and EvalReport paths of an indexed attempt select that attempt, and its
/// intent's file name reads back as that attempt's intent.
pub proof fn lemma_indexed_paths_select_attempt(attempt: u32)
    requires
        attempt > 0,
    ensures
        selected_attempt_spec(indexed_testing_path(attempt), indexed_report_path(attempt)) == Ok::<
            (u32, Spelling),
            Seq<char>,
        >((attempt, Spelling::Indexed)),
        strip_prefix(indexed_intent_path(attempt), "artifacts/"@) is Some,
        parse_name_spec(strip_prefix(indexed_intent_path(attempt), "artifacts/"@)->0) == Some(
            (attempt, Spelling::Indexed, Kind::Intent),
        ),
{
    reveal_strlit("artifacts/");
    reveal_strlit("artifacts/07-testing.attempt-");
    reveal_strlit("artifacts/08-eval-report.attempt-");
    reveal_strlit("07-testing.attempt-");
    reveal_strlit("08-eval-report.attempt-");
    reveal_strlit("07-testing.execution-intent.json");
    reveal_strlit("07-testing.json");
    reveal_strlit("08-eval-report.json");
    reveal_strlit("07-testing.check-");
    reveal_strlit(".json");
    reveal_strlit("json");
    reveal_strlit(".execution-intent.json");
    reveal_strlit("execution-intent.json");
    reveal_strlit("check-");
    lemma_pad3_digits(attempt);
    let d = pad3(attempt as nat);
    // Testing
    let t = indexed_testing_path(attempt);
    let tn = "07-testing.attempt-"@ + d + ".json"@;
    assert(t =~= "artifacts/"@ + tn);
    assert(strip_prefix(t, "artifacts/"@) == Some(tn)) by {
        assert(t.subrange(0, 10) =~= "artifacts/"@);
        assert(t.subrange(10, t.len() as int) =~= tn);
    }
    assert(tn != "07-testing.execution-intent.json"@) by {
        if tn.len() == "07-testing.execution-intent.json"@.len() {
            assert(tn[11] != "07-testing.execution-intent.json"@[11]);
        }
    }
    assert(tn != "07-testing.json"@) by {
        assert(tn.len() != "07-testing.json"@.len());
    }
    assert(tn != "08-eval-report.json"@) by {
        assert(tn[1] != "08-eval-report.json"@[1]);
    }
    assert(strip_prefix(tn, "07-testing.check-"@) is None) by {
        assert(tn.subrange(0, 17)[11] != "07-testing.check-"@[11]);
    }
    assert(strip_prefix(tn, "07-testing.attempt-"@) == Some(d + ".json"@)) by {
        assert(tn.subrange(0, 19) =~= "07-testing.attempt-"@);
        assert(tn.subrange(19, tn.len() as int) =~= d + ".json"@);
    }
    lemma_split_after_digits(d, ".json"@);
    assert(".json"@.skip(1) =~= "json"@);
    assert("json"@ != "execution-intent.json"@);
    assert(parse_name_spec(tn) == Some((attempt, Spelling::Indexed, Kind::Testing)));
    // EvalReport
    let r = indexed_report_path(attempt);
    let rn = "08-eval-report.attempt-"@ + d + ".json"@;
    assert(r =~= "artifacts/"@ + rn);
    assert(strip_prefix(r, "artifacts/"@) == Some(rn)) by {
        assert(r.subrange(0, 10) =~= "artifacts/"@);
        assert(r.subrange(10, r.len() as int) =~= rn);
    }
    assert(rn != "07-testing.execution-intent.json"@) by {
        assert(rn[1] != "07-testing.execution-intent.json"@[1]);
    }
    assert(rn != "07-testing.json"@) by {
        assert(rn[1] != "07-testing.json"@[1]);
    }
    assert(rn != "08-eval-report.json"@) by {
        assert(rn.len() != "08-eval-report.json"@.len());
    }
    assert(strip_prefix(rn, "07-testing.check-"@) is None) by {
        assert(rn.subrange(0, 17)[1] != "07-testing.check-"@[1]);
    }
    assert(strip_prefix(rn, "07-testing.attempt-"@) is None) by {
        assert(rn.subrange(0, 19)[1] != "07-testing.attempt-"@[1]);
    }
    assert(strip_prefix(rn, "08-eval-report.attempt-"@) == Some(d + ".json"@)) by {
        assert(rn.subrange(0, 23) =~= "08-eval-report.attempt-"@);
        assert(rn.subrange(23, rn.len() as int) =~= d + ".json"@);
    }
    assert(strip_suffix(d + ".json"@, ".json"@) == Some(d)) by {
        let x = d + ".json"@;
        assert(x.subrange(x.len() - 5, x.len() as int) =~= ".json"@);
        assert(x.subrange(0, x.len() - 5) =~= d);
    }
    assert(parse_name_spec(rn) == Some((attempt, Spelling::Indexed, Kind::Report)));
    // Intent
    let it = indexed_intent_path(attempt);
    let inn = "07-testing.attempt-"@ + d + ".execution-intent.json"@;
    assert(it =~= "artifacts/"@ + inn);
    assert(strip_prefix(it, "artifacts/"@) == Some(inn)) by {
        assert(it.subrange(0, 10) =~= "artifacts/"@);
        assert(it.subrange(10, it.len() as int) =~= inn);
    }
    assert(inn != "07-testing.execution-intent.json"@) by {
        assert(inn.len() != "07-testing.execution-intent.json"@.len());
    }
    assert(inn != "07-testing.json"@) by {
        assert(inn.len() != "07-testing.json"@.len());
    }
    assert(inn != "08-eval-report.json"@) by {
        assert(inn[1] != "08-eval-report.json"@[1]);
    }
    assert(strip_prefix(inn, "07-testing.check-"@) is None) by {
        assert(inn.subrange(0, 17)[11] != "07-testing.check-"@[11]);
    }
    assert(strip_prefix(inn, "07-testing.attempt-"@) == Some(d + ".execution-intent.json"@)) by {
        assert(inn.subrange(0, 19) =~= "07-testing.attempt-"@);
        assert(inn.subrange(19, inn.len() as int) =~= d + ".execution-intent.json"@);
    }
    lemma_split_after_digits(d, ".execution-intent.json"@);
    assert(".execution-intent.json"@.skip(1) =~= "execution-intent.json"@);
}


/// Every log of `logs` has its stdout; each whose stderr is missing is the last one and
/// may be missing only where that is allowed.
pub open spec fn logs_well_formed(
    logs: Seq<(Option<Seq<char>>, Option<Seq<char>>)>,
    allow_trailing_stdout: bool,
) -> bool {
    &&& forall|j: int| 0 <= j < logs.len() ==> (#[trigger] logs[j]).0 is Some
    &&& forall|j: int| 0 <= j < logs.len() && (#[trigger] logs[j]).1 is None ==> allow_trailing_stdout && j
        == logs.len() - 1
}

/// What every attempt of a loaded inventory satisfies.
pub open spec fn attempt_well_formed(a: AttemptView, allow_recovered: bool) -> bool {
    &&& a.intent is Some
    &&& a.report is Some ==> a.testing is Some
    &&& logs_well_formed(a.logs, allow_recovered && a.testing is None && a.report is None)
}

proof fn lemma_validate_logs_well_formed(st: CollectView, allow: bool, attempt: u32, k: u32)
    requires
        validate_logs(st, allow, attempt, k) is Ok,
    ensures
        logs_well_formed(
            validate_logs(st, allow, attempt, k)->Ok_0,
            allow && path_of(st, attempt, Kind::Testing) is None && path_of(st, attempt, Kind::Report) is None,
        ),
    decreases u32::MAX - k,
{
    let trailing_allowed = allow && path_of(st, attempt, Kind::Testing) is None && path_of(
        st,
        attempt,
        Kind::Report,
    ) is None;
    if has_log_from(st, attempt, k as int) {
        let stdout = path_of(st, attempt, Kind::Stdout(k));
        let stderr = path_of(st, attempt, Kind::Stderr(k));
        let rest = validate_logs(st, allow, attempt, (k + 1) as u32);
        lemma_validate_logs_well_formed(st, allow, attempt, (k + 1) as u32);
        let tail = rest->Ok_0;
        let all = validate_logs(st, allow, attempt, k)->Ok_0;
        assert(all == seq![(stdout, stderr)] + tail);
        if stderr is None {
            assert(!has_log_from(st, attempt, k + 1));
            assert(tail.len() == 0) by {
                if has_log_from(st, attempt, (k + 1) as int) {
                    assert(false);
                }
            }
        }
        assert forall|j: int| 0 <= j < all.len() implies (#[trigger] all[j]).0 is Some by {
            if j > 0 {
                assert(all[j] == tail[j - 1]);
            }
        }
        assert forall|j: int| 0 <= j < all.len() && (#[trigger] all[j]).1 is None implies trailing_allowed
            && j == all.len() - 1 by {
            if j > 0 {
                assert(all[j] == tail[j - 1]);
            }
        }
    }
}

/// Every attempt that has a spelling fills some slot.
pub open spec fn spelled_attempts_filled(st: CollectView) -> bool {
    forall|a: u32| #[trigger] st.spellings.contains_key(a) ==> exists|kind: Kind| st.paths.contains_key((a, kind))
}

proof fn lemma_collect_spelled_filled(entries: Seq<ArtifactEntry>, allow: bool)
    requires
        collect(entries, allow) is Ok,
    ensures
        spelled_attempts_filled(collect(entries, allow)->Ok_0),
    decreases entries.len(),
{
    if entries.len() > 0 {
        lemma_collect_spelled_filled(entries.drop_last(), allow);
        let prev = collect(entries.drop_last(), allow)->Ok_0;
        let st = collect(entries, allow)->Ok_0;
        assert forall|a: u32| #[trigger] st.spellings.contains_key(a) implies exists|kind: Kind|
            st.paths.contains_key((a, kind)) by {
            if st != prev {
                let (attempt, spelling, kind) = parse_name_spec(entries.last().name@)->0;
                if a == attempt {
                    assert(st.paths.contains_key((attempt, kind)));
                } else {
                    assert(prev.spellings.contains_key(a));
                    let k2 = choose|k2: Kind| prev.paths.contains_key((a, k2));
                    assert(st.paths.contains_key((a, k2)));
                }
            }
        }
    }
}

proof fn lemma_validate_attempts_well_formed(st: CollectView, allow: bool, k: u32)
    requires
        validate_attempts(st, allow, k) is Ok,
        spelled_attempts_filled(st),
    ensures
        forall|i: int|
            0 <= i < validate_attempts(st, allow, k)->Ok_0.len() ==> attempt_well_formed(
                #[trigger] validate_attempts(st, allow, k)->Ok_0[i],
                allow,
            ),
        validate_attempts(st, allow, k)->Ok_0.len() > 0 ==> st.spellings.contains_key(k),
    decreases u32::MAX - k,
{
    if has_attempt_from(st, k as int) && st.spellings.contains_key(k) {
        let a = validate_attempt(st, allow, k)->Ok_0;
        lemma_validate_logs_well_formed(st, allow, k, 1);
        assert(a.intent is Some) by {
            let kind = choose|kind: Kind| st.paths.contains_key((k, kind));
            match kind {
                Kind::Stdout(c) => assert(has_log(st, k, c)),
                Kind::Stderr(c) => assert(has_log(st, k, c)),
                _ => {},
            }
        }
        assert(a.logs == validate_logs(st, allow, k, 1)->Ok_0);
        assert(attempt_well_formed(a, allow));
        lemma_validate_attempts_well_formed(st, allow, (k + 1) as u32);
        let tail = validate_attempts(st, allow, (k + 1) as u32)->Ok_0;
        let all = validate_attempts(st, allow, k)->Ok_0;
        assert(all == seq![a] + tail);
        assert forall|i: int| 0 <= i < all.len() implies attempt_well_formed(#[trigger] all[i], allow) by {
            if i > 0 {
                assert(all[i] == tail[i - 1]);
            }
        }
    }
}

proof fn lemma_collect_attempt_one(entries: Seq<ArtifactEntry>)
    requires
        collect(entries, false) is Ok,
    ensures
        forall|a: u32| #[trigger] collect(entries, false)->Ok_0.spellings.contains_key(a) ==> a == 1,
    decreases entries.len(),
{
    if entries.len() > 0 {
        lemma_collect_attempt_one(entries.drop_last());
    }
}

/// A loaded inventory: each attempt has its intent, an EvalReport only after Testing
/// evidence, every log its stdout and a stderr unless it is the trailing stdout of a
/// crashed attempt that invalidation may read; and without recovered attempts there is
/// at most attempt 1, with every log pair complete.
pub proof fn lemma_loaded_inventory_is_well_formed(entries: Seq<ArtifactEntry>, allow_recovered: bool)
    requires
        load_spec(entries, allow_recovered) is Ok,
    ensures
        forall|i: int|
            0 <= i < load_spec(entries, allow_recovered)->Ok_0.len() ==> attempt_well_formed(
                #[trigger] load_spec(entries, allow_recovered)->Ok_0[i],
                allow_recovered,
            ),
        !allow_recovered ==> load_spec(entries, allow_recovered)->Ok_0.len() <= 1,
{
    let st = collect(entries, allow_recovered)->Ok_0;
    lemma_collect_spelled_filled(entries, allow_recovered);
    lemma_validate_attempts_well_formed(st, allow_recovered, 1);
    if !allow_recovered {
        lemma_collect_attempt_one(entries);
        let inv = validate_attempts(st, false, 1)->Ok_0;
        if inv.len() > 1 {
            assert(has_attempt_from(st, 1));
            lemma_validate_attempts_well_formed(st, false, 2);
            let tail = validate_attempts(st, false, 2)->Ok_0;
            assert(inv == seq![inv[0]] + tail);
            assert(tail.len() > 0);
            assert(st.spellings.contains_key(2));
        }
    }
}

proof fn lemma_replace_at_end(p: Seq<char>, from: Seq<char>, to: Seq<char>)
    requires
        from.len() > 0,
        forall|i: int| 0 <= i < p.len() ==> !matches_at(#[trigger] (p + from), from, i),
    ensures
        replace_all(p + from, from, to) == p + to,
    decreases p.len(),
{
    let s = p + from;
    if p.len() == 0 {
        assert(s =~= from);
        assert(s.subrange(0, from.len() as int) =~= from);
        assert(matches_at(s, from, 0));
        assert(s.skip(from.len() as int) =~= Seq::<char>::empty());
        assert(replace_all(Seq::<char>::empty(), from, to) == Seq::<char>::empty());
        assert(replace_all(s, from, to) == to + replace_all(s.skip(from.len() as int), from, to));
        assert(to + Seq::<char>::empty() =~= to);
        assert(p + to =~= to);
    } else {
        assert(replace_all(s, from, to) == seq![s[0]] + replace_all(s.skip(1), from, to));
        assert(!matches_at(s, from, 0));
        let q = p.skip(1);
        assert(s.skip(1) =~= q + from);
        assert forall|i: int| 0 <= i < q.len() implies !matches_at(#[trigger] (q + from), from, i) by {
            assert(!matches_at(p + from, from, i + 1));
            if matches_at(q + from, from, i) {
                assert((q + from).subrange(i, i + from.len()) =~= s.subrange(i + 1, i + 1 + from.len()));
            }
        }
        lemma_replace_at_end(q, from, to);
        assert(seq![s[0]] + (q + to) =~= p + to);
    }
}

/// A position holding no `.` starts no match of a pattern that begins with `.`.
proof fn lemma_no_dot_no_match(s: Seq<char>, from: Seq<char>, i: int)
    requires
        from.len() > 0,
        from[0] == '.',
        0 <= i < s.len(),
        s[i] != '.',
    ensures
        !matches_at(s, from, i),
{
    if matches_at(s, from, i) {
        assert(s.subrange(i, i + from.len())[0] == s[i]);
    }
}

/// `artifacts/07-testing.attempt-NNN` followed by a `.`-led tail: no match of a pattern
/// whose second character is not `a` can start before the tail.
proof fn lemma_attempt_base_no_match(d: Seq<char>, tail: Seq<char>, from: Seq<char>)
    requires
        all_digits(d),
        from.len() > 1,
        from[0] == '.',
        from[1] != 'a',
    ensures
        forall|i: int|
            0 <= i < ("artifacts/07-testing.attempt-"@ + d).len() ==> !matches_at(
                #[trigger] (("artifacts/07-testing.attempt-"@ + d) + tail),
                from,
                i,
            ),
{
    reveal_strlit("artifacts/07-testing.attempt-");
    let b = "artifacts/07-testing.attempt-"@ + d;
    let s = b + tail;
    assert forall|i: int| 0 <= i < b.len() implies !matches_at(#[trigger] (b + tail), from, i) by {
        if i == 20 {
            if matches_at(s, from, i) {
                assert(s.subrange(i, i + from.len())[1] == s[21]);
                assert(s[21] == 'a');
            }
        } else if i < 29 {
            assert(s[i] == "artifacts/07-testing.attempt-"@[i]);
            lemma_no_dot_no_match(s, from, i);
        } else {
            assert(s[i] == d[i - 29]);
            assert(is_digit(d[i - 29]));
            lemma_no_dot_no_match(s, from, i);
        }
    }
}

proof fn lemma_log_path_form(attempt: u32, check: u32, stream: Seq<char>)
    requires
        attempt > 0,
        check > 0,
    ensures
        log_path(indexed_testing_path(attempt), check as nat, stream) == "artifacts/07-testing.attempt-"@ + pad3(
            attempt as nat,
        ) + ".check-"@ + pad3(check as nat) + "."@ + stream + ".log"@,
{
    reveal_strlit(".json");
    lemma_pad3_digits(attempt);
    let d = pad3(attempt as nat);
    let base = "artifacts/07-testing.attempt-"@ + d;
    assert(indexed_testing_path(attempt) =~= base + ".json"@);
    let to = ".check-"@ + pad3(check as nat) + "."@ + stream + ".log"@;
    lemma_attempt_base_no_match(d, ".json"@, ".json"@);
    lemma_replace_at_end(base, ".json"@, to);
    assert(base + to =~= base + ".check-"@ + pad3(check as nat) + "."@ + stream + ".log"@);
}

proof fn lemma_log_suffix_parses(e: Seq<char>, check: u32, word: Seq<char>, kind: Kind)
    requires
        all_digits(e),
        canonical_number_spec(e) == Some(check),
        log_kind(word, check) == Some(kind),
    ensures
        parse_indexed_testing_suffix("check-"@ + e + "."@ + word) == Some(kind),
{
    reveal_strlit(".");
    reveal_strlit("json");
    reveal_strlit("execution-intent.json");
    reveal_strlit("check-");
    let tail = "check-"@ + e + "."@ + word;
    assert(tail != "execution-intent.json"@) by {
        assert(tail[0] != "execution-intent.json"@[0]);
    }
    assert(tail != "json"@) by {
        assert(tail[0] != "json"@[0]);
    }
    assert(strip_prefix(tail, "check-"@) == Some(e + "."@ + word)) by {
        assert(tail.subrange(0, 6) =~= "check-"@);
        assert(tail.subrange(6, tail.len() as int) =~= e + "."@ + word);
    }
    let dotted = "."@ + word;
    lemma_split_after_digits(e, dotted);
    assert(dotted.skip(1) =~= word);
    assert(e + "."@ + word =~= e + dotted);
}

#[verifier::rlimit(40)]
proof fn lemma_log_name_parses(attempt: u32, check: u32, word: Seq<char>, kind: Kind)
    requires
        attempt > 0,
        check > 0,
        log_kind(word, check) == Some(kind),
    ensures
        strip_prefix("artifacts/07-testing.attempt-"@ + pad3(attempt as nat) + ".check-"@ + pad3(check as nat) + "."@
            + word, "artifacts/"@) is Some,
        parse_name_spec(
            strip_prefix(
                "artifacts/07-testing.attempt-"@ + pad3(attempt as nat) + ".check-"@ + pad3(check as nat) + "."@ + word,
                "artifacts/"@,
            )->0,
        ) == Some((attempt, Spelling::Indexed, kind)),
{
    reveal_strlit(".check-");
    reveal_strlit(".");
    reveal_strlit("artifacts/");
    reveal_strlit("artifacts/07-testing.attempt-");
    reveal_strlit("07-testing.attempt-");
    reveal_strlit("07-testing.execution-intent.json");
    reveal_strlit("07-testing.json");
    reveal_strlit("08-eval-report.json");
    reveal_strlit("07-testing.check-");
    reveal_strlit("json");
    reveal_strlit("execution-intent.json");
    reveal_strlit("check-");
    lemma_pad3_digits(attempt);
    lemma_pad3_digits(check);
    let d = pad3(attempt as nat);
    let e = pad3(check as nat);
    let name = "artifacts/07-testing.attempt-"@ + d + ".check-"@ + e + "."@ + word;
    let tail = "check-"@ + e + "."@ + word;
    let n = "07-testing.attempt-"@ + d + "."@ + tail;
    assert(name =~= "artifacts/"@ + n);
    assert(strip_prefix(name, "artifacts/"@) == Some(n)) by {
        assert(name.subrange(0, 10) =~= "artifacts/"@);
        assert(name.subrange(10, name.len() as int) =~= n);
    }
    assert(n != "07-testing.execution-intent.json"@) by {
        if n.len() == "07-testing.execution-intent.json"@.len() {
            assert(n[11] != "07-testing.execution-intent.json"@[11]);
        }
    }
    assert(n != "07-testing.json"@) by {
        if n.len() == "07-testing.json"@.len() {
            assert(n[11] != "07-testing.json"@[11]);
        }
    }
    assert(n != "08-eval-report.json"@) by {
        assert(n[1] != "08-eval-report.json"@[1]);
    }
    assert(strip_prefix(n, "07-testing.check-"@) is None) by {
        assert(n.subrange(0, 17)[11] != "07-testing.check-"@[11]);
    }
    let dotted = "."@ + tail;
    assert(strip_prefix(n, "07-testing.attempt-"@) == Some(d + dotted)) by {
        assert(n.subrange(0, 19) =~= "07-testing.attempt-"@);
        assert(n.subrange(19, n.len() as int) =~= d + dotted);
    }
    lemma_split_after_digits(d, dotted);
    assert(dotted.skip(1) =~= tail);
    lemma_log_suffix_parses(e, check, word, kind);
}

proof fn lemma_stderr_from_stdout(d: Seq<char>, e: Seq<char>)
    requires
        all_digits(d),
        all_digits(e),
    ensures
        replace_all("artifacts/07-testing.attempt-"@ + d + ".check-"@ + e + ".stdout.log"@, ".stdout.log"@, ".stderr.log"@)
            == "artifacts/07-testing.attempt-"@ + d + ".check-"@ + e + ".stderr.log"@,
{
    reveal_strlit(".check-");
    reveal_strlit(".stdout.log");
    let base = "artifacts/07-testing.attempt-"@ + d;
    let p = base + ".check-"@ + e;
    lemma_attempt_base_no_match(d, ".check-"@ + e + ".stdout.log"@, ".stdout.log"@);
    assert forall|i: int| 0 <= i < p.len() implies !matches_at(#[trigger] (p + ".stdout.log"@), ".stdout.log"@, i) by {
        let s = p + ".stdout.log"@;
        assert(s =~= base + (".check-"@ + e + ".stdout.log"@));
        if i >= base.len() {
            let j = i - base.len();
            if j == 0 {
                if matches_at(s, ".stdout.log"@, i) {
                    assert(s.subrange(i, i + 11)[1] == s[i + 1]);
                    assert(s[i + 1] == 'c');
                }
            } else if j < 7 {
                assert(s[i] == ".check-"@[j]);
                lemma_no_dot_no_match(s, ".stdout.log"@, i);
            } else {
                assert(s[i] == e[j - 7]);
                assert(is_digit(e[j - 7]));
                lemma_no_dot_no_match(s, ".stdout.log"@, i);
            }
        } else {
            assert(!matches_at(base + (".check-"@ + e + ".stdout.log"@), ".stdout.log"@, i));
        }
    }
    lemma_replace_at_end(p, ".stdout.log"@, ".stderr.log"@);
}

proof fn lemma_stream_spelling(p: Seq<char>)
    ensures
        p + "."@ + "stdout"@ + ".log"@ == p + ".stdout.log"@,
        p + "."@ + "stderr"@ + ".log"@ == p + ".stderr.log"@,
        p + "."@ + "stdout.log"@ == p + ".stdout.log"@,
        p + "."@ + "stderr.log"@ == p + ".stderr.log"@,
{
    reveal_strlit(".");
    reveal_strlit(".log");
    reveal_strlit("stdout");
    reveal_strlit("stderr");
    reveal_strlit(".stdout.log");
    reveal_strlit(".stderr.log");
    reveal_strlit("stdout.log");
    reveal_strlit("stderr.log");
    assert(p + "."@ + "stdout"@ + ".log"@ =~= p + ".stdout.log"@);
    assert(p + "."@ + "stderr"@ + ".log"@ =~= p + ".stderr.log"@);
    assert(p + "."@ + "stdout.log"@ =~= p + ".stdout.log"@);
    assert(p + "."@ + "stderr.log"@ =~= p + ".stderr.log"@);
}

/// The logs of an indexed attempt: the stdout and stderr paths of check `c` differ only in
/// their stream, and the stderr path is the stdout path with `.stdout.log` replaced by
/// `.stderr.log`.
pub proof fn lemma_indexed_log_paths(attempt: u32, check: u32)
    requires
        attempt > 0,
        check > 0,
    ensures
        log_path(indexed_testing_path(attempt), check as nat, "stdout"@) == "artifacts/07-testing.attempt-"@ + pad3(
            attempt as nat,
        ) + ".check-"@ + pad3(check as nat) + ".stdout.log"@,
        log_path(indexed_testing_path(attempt), check as nat, "stderr"@) == "artifacts/07-testing.attempt-"@ + pad3(
            attempt as nat,
        ) + ".check-"@ + pad3(check as nat) + ".stderr.log"@,
        log_path(indexed_testing_path(attempt), check as nat, "stderr"@) == replace_all(
            log_path(indexed_testing_path(attempt), check as nat, "stdout"@),
            ".stdout.log"@,
            ".stderr.log"@,
        ),
{
    lemma_pad3_digits(attempt);
    lemma_pad3_digits(check);
    let d = pad3(attempt as nat);
    let e = pad3(check as nat);
    let p = "artifacts/07-testing.attempt-"@ + d + ".check-"@ + e;
    lemma_log_path_form(attempt, check, "stdout"@);
    lemma_log_path_form(attempt, check, "stderr"@);
    lemma_stream_spelling(p);
    lemma_stderr_from_stdout(d, e);
}

/// The stdout and stderr log names of check `c` of an indexed attempt read back as that
/// attempt's logs of check `c`.
pub proof fn lemma_indexed_log_names_parse(attempt: u32, check: u32)
    requires
        attempt > 0,
        check > 0,
    ensures
        parse_name_spec(
            strip_prefix("artifacts/07-testing.attempt-"@ + pad3(attempt as nat) + ".check-"@ + pad3(check as nat) + ".stdout.log"@,
                "artifacts/"@)->0,
        ) == Some((attempt, Spelling::Indexed, Kind::Stdout(check))),
        parse_name_spec(
            strip_prefix("artifacts/07-testing.attempt-"@ + pad3(attempt as nat) + ".check-"@ + pad3(check as nat) + ".stderr.log"@,
                "artifacts/"@)->0,
        ) == Some((attempt, Spelling::Indexed, Kind::Stderr(check))),
{
    let p = "artifacts/07-testing.attempt-"@ + pad3(attempt as nat) + ".check-"@ + pad3(check as nat);
    lemma_stream_spelling(p);
    assert(log_kind("stderr.log"@, check) == Some(Kind::Stderr(check))) by {
        reveal_strlit("stderr.log");
        reveal_strlit("stdout.log");
        assert("stderr.log"@[3] != "stdout.log"@[3]);
    }
    lemma_log_name_parses(attempt, check, "stdout.log"@, Kind::Stdout(check));
    lemma_log_name_parses(attempt, check, "stderr.log"@, Kind::Stderr(check));
}
/// The slot that an evaluation artifact name fills: its attempt and kind.
pub open spec fn slot_of(name: Seq<char>) -> (u32, Kind) {
    let parsed = parse_name_spec(name)->0;
    (parsed.0, parsed.2)
}

proof fn lemma_parsed_attempt_positive(name: Seq<char>)
    requires
        parse_name_spec(name) is Some,
    ensures
        (parse_name_spec(name)->0).0 >= 1,
{
}

/// What a successful listing has filed: each evaluation name in the slot that its name
/// denotes, distinct names in distinct slots, every slot from some name, and an attempt's
/// spelling recorded exactly when some slot of that attempt is filled.
pub open spec fn collected_slots(entries: Seq<ArtifactEntry>, st: CollectView) -> bool {
    &&& forall|i: int|
        0 <= i < entries.len() && is_evaluation_name(#[trigger] entries[i].name@) ==> parse_name_spec(
            entries[i].name@,
        ) is Some && st.paths.contains_key(slot_of(entries[i].name@)) && st.paths[slot_of(entries[i].name@)]
            == "artifacts/"@ + entries[i].name@
    &&& forall|i: int, j: int|
        0 <= i < j < entries.len() && is_evaluation_name(#[trigger] entries[i].name@) && is_evaluation_name(
            #[trigger] entries[j].name@,
        ) ==> slot_of(entries[i].name@) != slot_of(entries[j].name@)
    &&& forall|key: (u32, Kind)|
        #[trigger] st.paths.contains_key(key) ==> exists|i: int|
            0 <= i < entries.len() && is_evaluation_name(#[trigger] entries[i].name@) && slot_of(entries[i].name@)
                == key
    &&& forall|a: u32| #[trigger] st.spellings.contains_key(a) ==> exists|k: Kind| st.paths.contains_key((a, k))
    &&& forall|a: u32, k: Kind| #[trigger] st.paths.contains_key((a, k)) ==> st.spellings.contains_key(a)
}

proof fn lemma_collect_slots(entries: Seq<ArtifactEntry>, allow: bool)
    requires
        collect(entries, allow) is Ok,
    ensures
        collected_slots(entries, collect(entries, allow)->Ok_0),
    decreases entries.len(),
{
    if entries.len() > 0 {
        let init = entries.drop_last();
        lemma_collect_slots(init, allow);
        let prev = collect(init, allow)->Ok_0;
        let st = collect(entries, allow)->Ok_0;
        let e = entries.last();
        let n = entries.len() - 1;
        assert forall|i: int| 0 <= i < n implies entries[i] == init[i] by {}
        if !is_evaluation_name(e.name@) {
            assert(st == prev);
            assert forall|key: (u32, Kind)| #[trigger] st.paths.contains_key(key) implies exists|i: int|
                0 <= i < entries.len() && is_evaluation_name(#[trigger] entries[i].name@) && slot_of(entries[i].name@)
                    == key by {
                let i = choose|i: int| 0 <= i < init.len() && is_evaluation_name(#[trigger] init[i].name@) && slot_of(init[i].name@) == key;
                assert(entries[i] == init[i]);
            }
        } else {
            let key = slot_of(e.name@);
            assert(!prev.paths.contains_key(key));
            assert forall|i: int| 0 <= i < n && is_evaluation_name(#[trigger] entries[i].name@) implies slot_of(
                entries[i].name@,
            ) != key by {
                assert(entries[i] == init[i]);
                assert(prev.paths.contains_key(slot_of(init[i].name@)));
            }
            assert forall|k: (u32, Kind)| #[trigger] st.paths.contains_key(k) implies exists|i: int|
                0 <= i < entries.len() && is_evaluation_name(#[trigger] entries[i].name@) && slot_of(entries[i].name@)
                    == k by {
                if k == key {
                    assert(is_evaluation_name(entries[n].name@));
                } else {
                    let i = choose|i: int| 0 <= i < init.len() && is_evaluation_name(#[trigger] init[i].name@) && slot_of(init[i].name@) == k;
                    assert(entries[i] == init[i]);
                }
            }
            assert forall|a: u32| #[trigger] st.spellings.contains_key(a) implies exists|k: Kind| st.paths.contains_key((a, k)) by {
                if a == key.0 {
                    assert(st.paths.contains_key((key.0, key.1)));
                } else {
                    assert(prev.spellings.contains_key(a));
                    let k = choose|k: Kind| prev.paths.contains_key((a, k));
                    assert(st.paths.contains_key((a, k)));
                }
            }
        }
    }
}

/// Every evaluation name of a listing that loads fills exactly one slot of its own: the
/// slot its name denotes, with no other name in it, and every filled slot comes from a
/// name of the listing.
pub proof fn lemma_listing_fills_distinct_slots(entries: Seq<ArtifactEntry>, allow_recovered: bool)
    requires
        load_spec(entries, allow_recovered) is Ok,
    ensures
        collect(entries, allow_recovered) is Ok,
        collected_slots(entries, collect(entries, allow_recovered)->Ok_0),
{
    lemma_collect_slots(entries, allow_recovered);
}

/// A loaded inventory is empty exactly when the listing holds no evaluation artifact name.
pub proof fn lemma_empty_inventory_iff_no_evaluation_name(entries: Seq<ArtifactEntry>, allow_recovered: bool)
    requires
        load_spec(entries, allow_recovered) is Ok,
    ensures
        (load_spec(entries, allow_recovered)->Ok_0.len() == 0) <==> (forall|i: int|
            0 <= i < entries.len() ==> !is_evaluation_name(#[trigger] entries[i].name@)),
{
    lemma_collect_slots(entries, allow_recovered);
    let st = collect(entries, allow_recovered)->Ok_0;
    if exists|i: int| 0 <= i < entries.len() && is_evaluation_name(#[trigger] entries[i].name@) {
        let i = choose|i: int| 0 <= i < entries.len() && is_evaluation_name(#[trigger] entries[i].name@);
        let key = slot_of(entries[i].name@);
        lemma_parsed_attempt_positive(entries[i].name@);
        assert(st.paths.contains_key((key.0, key.1)));
        assert(st.spellings.contains_key(key.0));
        assert(has_attempt_from(st, 1));
    } else {
        assert forall|a: u32| 1 <= a implies !#[trigger] st.spellings.contains_key(a) by {
            if st.spellings.contains_key(a) {
                let k = choose|k: Kind| st.paths.contains_key((a, k));
                let j = choose|j: int|
                    0 <= j < entries.len() && is_evaluation_name(#[trigger] entries[j].name@) && slot_of(entries[j].name@)
                        == (a, k);
            }
        }
        assert(!has_attempt_from(st, 1));
    }
}

/// Which schema an Approved evaluation intent was written in.
#[derive(Debug, Clone, Copy, PartialEq, Eq, Structural)]
pub enum IntentSchema {
    V1,
    V2,
}

/// The slot that an intent reference's path names: it must be `artifacts/` and a
/// canonical evaluation artifact name.
pub open spec fn intent_path_slot_spec(path: Seq<char>) -> Result<(u32, Spelling, Kind), Seq<char>> {
    match strip_prefix(path, "artifacts/"@) {
        None => Err("Approved evaluation intent path is not canonical"@),
        Some(name) => match parse_name_spec(name) {
            None => Err("Approved evaluation intent path is not canonical"@),
            Some(slot) => Ok(slot),
        },
    }
}

pub fn intent_path_slot(path: &str) -> (r: Result<(u32, Spelling, Kind), String>)
    ensures
        match intent_path_slot_spec(path@) {
            Ok(slot) => r == Ok::<(u32, Spelling, Kind), String>(slot),
            Err(m) => r matches Err(e) && e@ == m,
        },
{
    match strip_prefix_exec(&chars_of(path), &chars_of("artifacts/")) {
        None => Err(string_of(&chars_of("Approved evaluation intent path is not canonical"))),
        Some(name) => match parse_name(&name) {
            None => Err(string_of(&chars_of("Approved evaluation intent path is not canonical"))),
            Some(slot) => Ok(slot),
        },
    }
}

/// The schema of an intent from its `schema_version` member: version 1 only at the fixed
/// intent path; version 2 only with an explicit `recovery` member.
pub open spec fn intent_schema_spec(path: Seq<char>, schema_version: Option<u64>, has_recovery_member: bool) -> Result<
    IntentSchema,
    Seq<char>,
> {
    if schema_version == Some(1u64) && path == "artifacts/07-testing.execution-intent.json"@ {
        Ok(IntentSchema::V1)
    } else if schema_version == Some(2u64) {
        if has_recovery_member {
            Ok(IntentSchema::V2)
        } else {
            Err("Approved evaluation intent v2 requires an explicit recovery member"@)
        }
    } else {
        Err("unsupported Approved evaluation intent schema or path"@)
    }
}

pub fn intent_schema(path: &str, schema_version: Option<u64>, has_recovery_member: bool) -> (r: Result<
    IntentSchema,
    String,
>)
    ensures
        match intent_schema_spec(path@, schema_version, has_recovery_member) {
            Ok(v) => r == Ok::<IntentSchema, String>(v),
            Err(m) => r matches Err(e) && e@ == m,
        },
{
    let fixed = seq_eq(&chars_of(path), &chars_of("artifacts/07-testing.execution-intent.json"));
    match schema_version {
        Some(1) if fixed => Ok(IntentSchema::V1),
        Some(2) => if has_recovery_member {
            Ok(IntentSchema::V2)
        } else {
            Err(string_of(&chars_of("Approved evaluation intent v2 requires an explicit recovery member")))
        },
        _ => Err(string_of(&chars_of("unsupported Approved evaluation intent schema or path"))),
    }
}

/// A version 2 intent must sit at the indexed intent path of the attempt it names.
pub fn check_intent_attempt(slot: (u32, Spelling, Kind), payload_attempt: u32) -> (r: Result<(), String>)
    ensures
        slot == (payload_attempt, Spelling::Indexed, Kind::Intent) ==> r is Ok,
        slot != (payload_attempt, Spelling::Indexed, Kind::Intent) ==> (r matches Err(e) && e@
            == "Approved evaluation intent path does not match its exact attempt"@),
{
    let (a, spelling, kind) = slot;
    let indexed = match spelling {
        Spelling::Indexed => true,
        Spelling::Fixed => false,
    };
    let intent = match kind {
        Kind::Intent => true,
        _ => false,
    };
    if a == payload_attempt && indexed && intent {
        Ok(())
    } else {
        Err(string_of(&chars_of("Approved evaluation intent path does not match its exact attempt")))
    }
}

} // verus!
