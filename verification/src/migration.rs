//! Migration of a legacy (v0) loop run to the current durable schema (v1): the names of
//! the transaction's entries, the recovery decision after an interruption, the names a
//! migration rewrites, and the digest that binds a run tree.
//!
//! The forward transaction publishes, in order: an intent beside the run, a staged copy
//! that it rewrites, the source renamed to a backup, the staged copy renamed to the
//! source, and finally removes the staged-ownership marker and the intent.
use vstd::prelude::*;

use crate::digest::{digest_hex, digest_hex_spec, hex_encode_bytes, hex_spec, sha256_bytes, sha256_spec};
use crate::inspect::{is_run_id_char, is_valid_run_id};
use crate::number::{canonical_number, canonical_number_spec, decimal, decimal_exec};
use crate::migrated_artifacts::bytes_lt;
use crate::text::{
    all_chars, append_chars, chars_of, join_chars, seq_eq, string_of, strip_prefix, strip_prefix_exec,
    strip_suffix, strip_suffix_exec, trim_exec, is_alnum,
};

verus! {

/// The schema version that migration produces.
pub const DURABLE_ARTIFACT_SCHEMA_VERSION: u32 = 1;

/// How a migration request ended.
#[derive(Debug, Clone, Copy, PartialEq, Eq, Structural)]
pub enum MigrationStatus {
    Migrated,
    Recovered,
    AlreadyCurrent,
}

/// The report of a migration request.
#[derive(Debug, Clone, PartialEq, Eq)]
pub struct MigrationOutcome {
    pub command: String,
    pub run_id: String,
    pub status: MigrationStatus,
    pub from_schema_version: u32,
    pub to_schema_version: u32,
    pub run_directory: String,
    pub backup_directory: Option<String>,
    pub result_path: Option<String>,
    pub migrated_artifacts: Vec<String>,
}

/// Why a migration request failed.
#[derive(Debug, Clone, PartialEq, Eq)]
pub struct MigrationError {
    pub message: String,
}

impl MigrationError {
    pub fn new(message: String) -> (r: Self)
        ensures
            r.message@ == message@,
    {
        MigrationError { message }
    }

    /// `"<context>: <error>"`.
    pub fn context(context: &str, error: &str) -> (r: Self)
        ensures
            r.message@ == context@ + ": "@ + error@,
    {
        let mut m = chars_of(context);
        append_chars(&mut m, &chars_of(": "));
        append_chars(&mut m, &chars_of(error));
        MigrationError { message: string_of(&m) }
    }

    /// The message, as the error displays.
    pub fn to_string(&self) -> (r: String)
        ensures
            r@ == self.message@,
    {
        self.message.clone()
    }
}

fn all_run_id_chars(s: &Vec<char>) -> (r: bool)
    ensures
        r == forall|i: int| 0 <= i < s@.len() ==> is_run_id_char(#[trigger] s@[i]),
{
    let mut i: usize = 0;
    while i < s.len()
        invariant
            i <= s.len(),
            forall|j: int| 0 <= j < i ==> is_run_id_char(#[trigger] s@[j]),
        decreases s.len() - i,
    {
        let c = s[i];
        if !(('0' <= c && c <= '9') || ('a' <= c && c <= 'z') || ('A' <= c && c <= 'Z') || c == '-'
            || c == '_') {
            return false;
        }
        i = i + 1;
    }
    true
}

/// Refuses a run ID that could name anything but one run directory.
pub fn validate_run_id(run_id: &str) -> (r: Result<(), MigrationError>)
    ensures
        r is Ok <==> is_valid_run_id(run_id@),
        r is Err ==> r->Err_0.message@ == "invalid run ID; use only ASCII letters, numbers, '-' or '_'"@,
{
    let c = chars_of(run_id);
    if c.len() > 0 && seq_eq(&trim_exec(&c), &c) && !seq_eq(&c, &chars_of(".")) && !seq_eq(
        &c,
        &chars_of(".."),
    ) && all_run_id_chars(&c) {
        Ok(())
    } else {
        Err(
            MigrationError::new(
                string_of(&chars_of("invalid run ID; use only ASCII letters, numbers, '-' or '_'")),
            ),
        )
    }
}

/// The names, beside the run in the runs root, of the transaction's entries.
#[derive(Debug, Clone, PartialEq, Eq)]
pub struct MigrationNames {
    pub source: String,
    pub staged: String,
    pub backup: String,
    pub intent: String,
}

pub open spec fn transaction_prefix(run_id: Seq<char>) -> Seq<char> {
    "."@ + run_id + ".migration-v0-v1"@
}

pub fn migration_names(run_id: &str) -> (r: MigrationNames)
    ensures
        r.source@ == run_id@,
        r.staged@ == transaction_prefix(run_id@) + ".staged"@,
        r.backup@ == transaction_prefix(run_id@) + ".backup"@,
        r.intent@ == transaction_prefix(run_id@) + ".intent.json"@,
{
    let mut prefix = chars_of(".");
    append_chars(&mut prefix, &chars_of(run_id));
    append_chars(&mut prefix, &chars_of(".migration-v0-v1"));
    MigrationNames {
        source: string_of(&chars_of(run_id)),
        staged: string_of(&join_chars(&prefix, &chars_of(".staged"))),
        backup: string_of(&join_chars(&prefix, &chars_of(".backup"))),
        intent: string_of(&join_chars(&prefix, &chars_of(".intent.json"))),
    }
}

/// Which of the transaction's entries exist: the selected run (source), the staged copy,
/// the backup and the intent.
#[derive(Debug, Clone, Copy, PartialEq, Eq, Structural)]
pub struct Presence {
    pub source: bool,
    pub staged: bool,
    pub backup: bool,
    pub intent: bool,
}

/// What a migration request does with the entries it finds.
#[derive(Debug, Clone, Copy, PartialEq, Eq, Structural)]
pub enum RecoveryPlan {
    /// No transaction: authenticate the run and migrate it if it is legacy.
    Fresh,
    /// A finished migration: validate it and report the run as current.
    AlreadyMigrated,
    /// An intent without staging: remove the intent and migrate afresh.
    DiscardIntent,
    /// A staged copy beside the source: publish it if it authenticates, else remove it
    /// and the intent and migrate afresh.
    ResumeStaged,
    /// The source already backed up: publish the staged copy as the source.
    PublishStaged,
    /// The migrated run already published: remove the marker and the intent.
    FinishPublished,
}

pub open spec fn plan_for(p: Presence) -> Option<RecoveryPlan> {
    if p == (Presence { source: true, staged: false, backup: false, intent: false }) {
        Some(RecoveryPlan::Fresh)
    } else if p == (Presence { source: true, staged: false, backup: true, intent: false }) {
        Some(RecoveryPlan::AlreadyMigrated)
    } else if p == (Presence { source: true, staged: false, backup: false, intent: true }) {
        Some(RecoveryPlan::DiscardIntent)
    } else if p == (Presence { source: true, staged: true, backup: false, intent: true }) {
        Some(RecoveryPlan::ResumeStaged)
    } else if p == (Presence { source: false, staged: true, backup: true, intent: true }) {
        Some(RecoveryPlan::PublishStaged)
    } else if p == (Presence { source: true, staged: false, backup: true, intent: true }) {
        Some(RecoveryPlan::FinishPublished)
    } else {
        None
    }
}

pub open spec fn bool_text(b: bool) -> Seq<char> {
    if b {
        "true"@
    } else {
        "false"@
    }
}

pub open spec fn ambiguity_message(run_id: Seq<char>, p: Presence) -> Seq<char> {
    "ambiguous migration recovery state for run "@ + run_id + ": source="@ + bool_text(p.source)
        + ", staged="@ + bool_text(p.staged) + ", backup="@ + bool_text(p.backup) + ", intent="@
        + bool_text(p.intent)
}

fn bool_text_exec(b: bool) -> (r: Vec<char>)
    ensures
        r@ == bool_text(b),
{
    if b {
        chars_of("true")
    } else {
        chars_of("false")
    }
}

/// The recovery plan for the entries found, or the refusal of a state that no
/// interruption of the transaction leaves.
pub fn recovery_plan(run_id: &str, p: Presence) -> (r: Result<RecoveryPlan, MigrationError>)
    ensures
        match r {
            Ok(plan) => plan_for(p) == Some(plan),
            Err(e) => plan_for(p) is None && e.message@ == ambiguity_message(run_id@, p),
        },
{
    match (p.source, p.staged, p.backup, p.intent) {
        (true, false, false, false) => Ok(RecoveryPlan::Fresh),
        (true, false, true, false) => Ok(RecoveryPlan::AlreadyMigrated),
        (true, false, false, true) => Ok(RecoveryPlan::DiscardIntent),
        (true, true, false, true) => Ok(RecoveryPlan::ResumeStaged),
        (false, true, true, true) => Ok(RecoveryPlan::PublishStaged),
        (true, false, true, true) => Ok(RecoveryPlan::FinishPublished),
        _ => {
            let mut m = chars_of("ambiguous migration recovery state for run ");
            append_chars(&mut m, &chars_of(run_id));
            append_chars(&mut m, &chars_of(": source="));
            append_chars(&mut m, &bool_text_exec(p.source));
            append_chars(&mut m, &chars_of(", staged="));
            append_chars(&mut m, &bool_text_exec(p.staged));
            append_chars(&mut m, &chars_of(", backup="));
            append_chars(&mut m, &bool_text_exec(p.backup));
            append_chars(&mut m, &chars_of(", intent="));
            append_chars(&mut m, &bool_text_exec(p.intent));
            Err(MigrationError::new(string_of(&m)))
        },
    }
}

/// The points at which the forward transaction can be cut.
#[derive(Debug, Clone, Copy, PartialEq, Eq, Structural)]
pub enum PublicationPhase {
    BeforeIntent,
    AfterIntent,
    DuringStaging,
    AfterStaged,
    AfterBackup,
    AfterPublish,
    AfterOwnershipRemoval,
    Complete,
}

/// The entries that exist when the forward transaction stops at a phase.
pub open spec fn presence_at(phase: PublicationPhase) -> Presence {
    match phase {
        PublicationPhase::BeforeIntent => Presence { source: true, staged: false, backup: false, intent: false },
        PublicationPhase::AfterIntent => Presence { source: true, staged: false, backup: false, intent: true },
        PublicationPhase::DuringStaging => Presence { source: true, staged: true, backup: false, intent: true },
        PublicationPhase::AfterStaged => Presence { source: true, staged: true, backup: false, intent: true },
        PublicationPhase::AfterBackup => Presence { source: false, staged: true, backup: true, intent: true },
        PublicationPhase::AfterPublish => Presence { source: true, staged: false, backup: true, intent: true },
        PublicationPhase::AfterOwnershipRemoval => Presence { source: true, staged: false, backup: true, intent: true },
        PublicationPhase::Complete => Presence { source: true, staged: false, backup: true, intent: false },
    }
}

/// The entries that exist after a plan has run, given whether the staged copy
/// authenticated; a plan that migrates afresh leaves the source alone.
pub open spec fn presence_after(plan: RecoveryPlan, staged_authenticates: bool) -> Presence {
    let fresh = Presence { source: true, staged: false, backup: false, intent: false };
    let done = Presence { source: true, staged: false, backup: true, intent: false };
    match plan {
        RecoveryPlan::Fresh => fresh,
        RecoveryPlan::AlreadyMigrated => done,
        RecoveryPlan::DiscardIntent => fresh,
        RecoveryPlan::ResumeStaged => if staged_authenticates {
            done
        } else {
            fresh
        },
        RecoveryPlan::PublishStaged => done,
        RecoveryPlan::FinishPublished => done,
    }
}

/// Every cut of the forward transaction leaves the selected run or its backup in place,
/// is answered by a recovery plan, and that plan ends either in the finished migration
/// or back at the untouched source, from which the transaction starts over.
pub proof fn lemma_every_cut_recovers(phase: PublicationPhase, staged_authenticates: bool)
    ensures
        presence_at(phase).source || presence_at(phase).backup,
        plan_for(presence_at(phase)) is Some,
        presence_after(plan_for(presence_at(phase))->0, staged_authenticates) == presence_at(
            PublicationPhase::Complete,
        ) || presence_after(plan_for(presence_at(phase))->0, staged_authenticates) == presence_at(
            PublicationPhase::BeforeIntent,
        ),
        phase != PublicationPhase::BeforeIntent && phase != PublicationPhase::AfterIntent && phase
            != PublicationPhase::DuringStaging && phase != PublicationPhase::AfterStaged ==> presence_after(
            plan_for(presence_at(phase))->0,
            staged_authenticates,
        ) == presence_at(PublicationPhase::Complete),
{
}

/// A durable policy decision of the patch stem: `<stem>.policy-decision.json`, or
/// `<stem>.attempt-NNN.policy-decision.json` for a canonical retry NNN >= 2.
pub open spec fn policy_decision_name_matches_spec(name: Seq<char>, stem: Seq<char>) -> bool {
    if name == stem + ".policy-decision.json"@ {
        true
    } else {
        match strip_prefix(name, stem + ".attempt-"@) {
            None => false,
            Some(tail) => match strip_suffix(tail, ".policy-decision.json"@) {
                None => false,
                Some(attempt) => match canonical_number_spec(attempt) {
                    Some(n) => n >= 2,
                    None => false,
                },
            },
        }
    }
}

pub fn policy_decision_name_matches(name: &str, stem: &str) -> (r: bool)
    ensures
        r == policy_decision_name_matches_spec(name@, stem@),
{
    let name = chars_of(name);
    let stem = chars_of(stem);
    if seq_eq(&name, &join_chars(&stem, &chars_of(".policy-decision.json"))) {
        return true;
    }
    match strip_prefix_exec(&name, &join_chars(&stem, &chars_of(".attempt-"))) {
        None => false,
        Some(tail) => match strip_suffix_exec(&tail, &chars_of(".policy-decision.json")) {
            None => false,
            Some(attempt) => match canonical_number(&attempt) {
                Some(n) => n >= 2,
                None => false,
            },
        },
    }
}

pub open spec fn is_stem_char(c: char) -> bool {
    is_alnum(c) || c == '.' || c == '_' || c == '-'
}

/// The characters of `s` that may stand in a file stem, in order.
pub open spec fn stem_chars(s: Seq<char>) -> Seq<char>
    decreases s.len(),
{
    if s.len() == 0 {
        seq![]
    } else if is_stem_char(s.last()) {
        stem_chars(s.drop_last()).push(s.last())
    } else {
        stem_chars(s.drop_last())
    }
}

/// The artifact stem of a patch: its letters, digits, `.`, `_` and `-`, or `patch`.
pub open spec fn safe_artifact_stem_spec(patch_id: Seq<char>) -> Seq<char> {
    if stem_chars(patch_id).len() == 0 {
        "patch"@
    } else {
        stem_chars(patch_id)
    }
}

pub fn safe_artifact_stem(patch_id: &str) -> (r: String)
    ensures
        r@ == safe_artifact_stem_spec(patch_id@),
{
    let s = chars_of(patch_id);
    let mut stem: Vec<char> = Vec::new();
    let mut i: usize = 0;
    while i < s.len()
        invariant
            i <= s.len(),
            stem@ == stem_chars(s@.take(i as int)),
        decreases s.len() - i,
    {
        assert(s@.take(i + 1).drop_last() =~= s@.take(i as int));
        let c = s[i];
        if ('0' <= c && c <= '9') || ('a' <= c && c <= 'z') || ('A' <= c && c <= 'Z') || c == '.'
            || c == '_' || c == '-' {
            stem.push(c);
        }
        i = i + 1;
    }
    assert(s@.take(s.len() as int) =~= s@);
    if stem.len() == 0 {
        string_of(&chars_of("patch"))
    } else {
        string_of(&stem)
    }
}

/// The typed digest fields whose values migration maps to their current aliases.
pub open spec fn typed_digest_fields() -> Seq<Seq<char>> {
    seq![
        "approved_run_digest"@,
        "artifact_digest"@,
        "candidate_diff_digest"@,
        "candidate_state_digest"@,
        "developer_response_digest"@,
        "eval_passed_run_digest"@,
        "eval_report_digest"@,
        "expected_final_projection_digest"@,
        "expected_reset_projection_digest"@,
        "human_approval_digest"@,
        "patch_digest"@,
        "policy_decision_digest"@,
        "previous_record_digest"@,
        "repository_identity_digest"@,
        "run_directory_digest"@,
        "source_run_digest"@,
        "source_worktree_state_digest"@,
        "stderr_digest"@,
        "stdout_digest"@,
        "ticket_digest"@,
    ]
}

pub fn is_known_typed_digest_field(key: &str) -> (r: bool)
    ensures
        r == typed_digest_fields().contains(key@),
{
    let k = chars_of(key);
    let fields: [&str; 20] = [
        "approved_run_digest",
        "artifact_digest",
        "candidate_diff_digest",
        "candidate_state_digest",
        "developer_response_digest",
        "eval_passed_run_digest",
        "eval_report_digest",
        "expected_final_projection_digest",
        "expected_reset_projection_digest",
        "human_approval_digest",
        "patch_digest",
        "policy_decision_digest",
        "previous_record_digest",
        "repository_identity_digest",
        "run_directory_digest",
        "source_run_digest",
        "source_worktree_state_digest",
        "stderr_digest",
        "stdout_digest",
        "ticket_digest",
    ];
    assert forall|j: int| 0 <= j < 20 implies (#[trigger] fields@[j])@ == typed_digest_fields()[j] by {}
    let mut i: usize = 0;
    while i < 20
        invariant
            i <= 20,
            k@ == key@,
            forall|j: int| 0 <= j < 20 ==> (#[trigger] fields@[j])@ == typed_digest_fields()[j],
            forall|j: int| 0 <= j < i ==> typed_digest_fields()[j] != key@,
        decreases 20 - i,
    {
        if seq_eq(&k, &chars_of(fields[i])) {
            assert(typed_digest_fields()[i as int] == key@);
            return true;
        }
        i = i + 1;
    }
    assert(!typed_digest_fields().contains(key@)) by {
        if typed_digest_fields().contains(key@) {
            let j = choose|j: int| 0 <= j < typed_digest_fields().len() && typed_digest_fields()[j] == key@;
            assert(typed_digest_fields()[j] != key@);
        }
    }
    false
}

/// The eight bytes of `n`, most significant first.
pub open spec fn be64(n: u64) -> Seq<u8> {
    seq![
        (n >> 56u64) as u8,
        (n >> 48u64) as u8,
        (n >> 40u64) as u8,
        (n >> 32u64) as u8,
        (n >> 24u64) as u8,
        (n >> 16u64) as u8,
        (n >> 8u64) as u8,
        n as u8,
    ]
}

fn be64_exec(n: u64) -> (r: Vec<u8>)
    ensures
        r@ == be64(n),
{
    let mut r: Vec<u8> = Vec::new();
    r.push((n >> 56u64) as u8);
    r.push((n >> 48u64) as u8);
    r.push((n >> 40u64) as u8);
    r.push((n >> 32u64) as u8);
    r.push((n >> 24u64) as u8);
    r.push((n >> 16u64) as u8);
    r.push((n >> 8u64) as u8);
    r.push(n as u8);
    assert(r@ =~= be64(n));
    r
}

/// A field framed by its length as eight big-endian bytes.
pub open spec fn framed(field: Seq<u8>) -> Seq<u8> {
    be64(field.len() as u64) + field
}

/// One record of a run tree's digest: its kind, its path and its payload, each framed.
pub open spec fn tree_record(kind: Seq<u8>, path: Seq<u8>, payload: Seq<u8>) -> Seq<u8> {
    framed(kind) + framed(path) + framed(payload)
}

fn append_bytes(v: &mut Vec<u8>, s: &[u8])
    ensures
        final(v)@ == old(v)@ + s@,
{
    let mut i: usize = 0;
    while i < s.len()
        invariant
            i <= s.len(),
            v@ == old(v)@ + s@.take(i as int),
        decreases s.len() - i,
    {
        v.push(s[i]);
        assert(s@.take(i + 1) =~= s@.take(i as int).push(s@[i as int]));
        i = i + 1;
    }
    assert(s@.take(s.len() as int) =~= s@);
}

fn append_framed(v: &mut Vec<u8>, field: &[u8])
    requires
        field.len() <= u64::MAX,
    ensures
        final(v)@ == old(v)@ + framed(field@),
{
    let ghost before = v@;
    append_bytes(v, be64_exec(field.len() as u64).as_slice());
    append_bytes(v, field);
    assert(v@ =~= before + framed(field@));
}

/// What a run tree holds at one path.
#[derive(Debug, Clone, PartialEq, Eq)]
pub enum RunTreeEntry {
    Directory,
    File { len: u64, digest: Vec<u8> },
    Symlink(Vec<u8>),
}

/// The record of one inventory entry.
pub open spec fn entry_record(path: Seq<u8>, entry: RunTreeEntry) -> Seq<u8> {
    match entry {
        RunTreeEntry::Directory => tree_record("directory"@.map_values(|c: char| c as u8), path, seq![]),
        RunTreeEntry::File { len, digest } => tree_record(
            "file"@.map_values(|c: char| c as u8),
            path,
            be64(len) + digest@,
        ),
        RunTreeEntry::Symlink(target) => tree_record("symlink"@.map_values(|c: char| c as u8), path, target@),
    }
}

/// The records of an inventory, in its order.
pub open spec fn inventory_records(inventory: Seq<(Vec<u8>, RunTreeEntry)>) -> Seq<u8>
    decreases inventory.len(),
{
    if inventory.len() == 0 {
        seq![]
    } else {
        inventory_records(inventory.drop_last()) + entry_record(inventory.last().0@, inventory.last().1)
    }
}

fn ascii_bytes(s: &str) -> (r: Vec<u8>)
    ensures
        r@ == s@.map_values(|c: char| c as u8),
{
    let c = chars_of(s);
    let mut r: Vec<u8> = Vec::new();
    let mut i: usize = 0;
    while i < c.len()
        invariant
            i <= c.len(),
            c@ == s@,
            r@ == c@.take(i as int).map_values(|x: char| x as u8),
        decreases c.len() - i,
    {
        r.push(c[i] as u8);
        assert(c@.take(i + 1).map_values(|x: char| x as u8) =~= c@.take(i as int).map_values(
            |x: char| x as u8,
        ).push(c@[i as int] as u8));
        i = i + 1;
    }
    assert(c@.take(c.len() as int) =~= c@);
    r
}

/// The most entries a run tree may hold.
pub const RUN_TREE_ENTRY_CAP: usize = 4096;

/// The most bytes that the regular files of a run tree may hold together (32 MiB).
pub const RUN_TREE_BYTE_CAP: u64 = 33554432;

/// The deepest a directory of a run tree may be nested.
pub const RUN_TREE_DIRECTORY_DEPTH_CAP: usize = 8;

/// Paths strictly increasing in byte order: each entry once, in the order of a sorted map.
pub open spec fn inventory_sorted(inventory: Seq<(Vec<u8>, RunTreeEntry)>) -> bool {
    forall|i: int, j: int| 0 <= i < j < inventory.len() ==> bytes_lt(inventory[i].0@, inventory[j].0@)
}

/// What an inventory walk has counted so far.
#[derive(Debug, Clone, Copy, PartialEq, Eq, Structural)]
pub struct InventoryCounts {
    pub entries: usize,
    pub total_bytes: u64,
}

pub open spec fn admit_entry_spec(counts: InventoryCounts) -> Result<InventoryCounts, Seq<char>> {
    if counts.entries + 1 > usize::MAX {
        Err("run tree entry count overflowed"@)
    } else if counts.entries + 1 > RUN_TREE_ENTRY_CAP {
        Err("run tree exceeds its "@ + decimal(RUN_TREE_ENTRY_CAP as nat) + "-entry cap"@)
    } else {
        Ok(InventoryCounts { entries: (counts.entries + 1) as usize, ..counts })
    }
}

/// Counts one more entry of a run tree against the entry cap.
pub fn admit_entry(counts: InventoryCounts) -> (r: Result<InventoryCounts, MigrationError>)
    ensures
        match admit_entry_spec(counts) {
            Ok(c) => r == Ok::<InventoryCounts, MigrationError>(c),
            Err(m) => r matches Err(e) && e.message@ == m,
        },
{
    let entries = match counts.entries.checked_add(1) {
        Some(n) => n,
        None => {
            return Err(MigrationError::new(string_of(&chars_of("run tree entry count overflowed"))));
        },
    };
    if entries > RUN_TREE_ENTRY_CAP {
        let mut m = chars_of("run tree exceeds its ");
        append_chars(&mut m, &decimal_exec(RUN_TREE_ENTRY_CAP as u64));
        append_chars(&mut m, &chars_of("-entry cap"));
        return Err(MigrationError::new(string_of(&m)));
    }
    Ok(InventoryCounts { entries, ..counts })
}

pub open spec fn admit_directory_spec(depth: usize) -> Result<usize, Seq<char>> {
    if depth + 1 > usize::MAX {
        Err("run tree directory depth overflowed"@)
    } else if depth + 1 > RUN_TREE_DIRECTORY_DEPTH_CAP {
        Err("run tree exceeds its "@ + decimal(RUN_TREE_DIRECTORY_DEPTH_CAP as nat) + "-directory depth cap"@)
    } else {
        Ok((depth + 1) as usize)
    }
}

/// The depth of a child directory found at `depth`, refused past the depth cap.
pub fn admit_directory(depth: usize) -> (r: Result<usize, MigrationError>)
    ensures
        match admit_directory_spec(depth) {
            Ok(d) => r == Ok::<usize, MigrationError>(d),
            Err(m) => r matches Err(e) && e.message@ == m,
        },
{
    let child = match depth.checked_add(1) {
        Some(d) => d,
        None => {
            return Err(MigrationError::new(string_of(&chars_of("run tree directory depth overflowed"))));
        },
    };
    if child > RUN_TREE_DIRECTORY_DEPTH_CAP {
        let mut m = chars_of("run tree exceeds its ");
        append_chars(&mut m, &decimal_exec(RUN_TREE_DIRECTORY_DEPTH_CAP as u64));
        append_chars(&mut m, &chars_of("-directory depth cap"));
        return Err(MigrationError::new(string_of(&m)));
    }
    Ok(child)
}

pub open spec fn admit_file_bytes_spec(counts: InventoryCounts, len: u64) -> Result<InventoryCounts, Seq<char>> {
    if counts.total_bytes + len > u64::MAX {
        Err("run tree byte total overflowed"@)
    } else if counts.total_bytes + len > RUN_TREE_BYTE_CAP {
        Err("run tree exceeds its "@ + decimal(RUN_TREE_BYTE_CAP as nat) + "-byte cap"@)
    } else {
        Ok(InventoryCounts { total_bytes: (counts.total_bytes + len) as u64, ..counts })
    }
}

/// Counts the bytes of one more regular file against the byte cap.
pub fn admit_file_bytes(counts: InventoryCounts, len: u64) -> (r: Result<InventoryCounts, MigrationError>)
    ensures
        match admit_file_bytes_spec(counts, len) {
            Ok(c) => r == Ok::<InventoryCounts, MigrationError>(c),
            Err(m) => r matches Err(e) && e.message@ == m,
        },
{
    let total = match counts.total_bytes.checked_add(len) {
        Some(t) => t,
        None => {
            return Err(MigrationError::new(string_of(&chars_of("run tree byte total overflowed"))));
        },
    };
    if total > RUN_TREE_BYTE_CAP {
        let mut m = chars_of("run tree exceeds its ");
        append_chars(&mut m, &decimal_exec(RUN_TREE_BYTE_CAP));
        append_chars(&mut m, &chars_of("-byte cap"));
        return Err(MigrationError::new(string_of(&m)));
    }
    Ok(InventoryCounts { total_bytes: total, ..counts })
}

/// The inventory entry of a regular file with these contents: its length and the
/// SHA-256 of its bytes.
pub fn inventory_file_entry(bytes: &[u8]) -> (r: RunTreeEntry)
    ensures
        r matches RunTreeEntry::File { len, digest } && len == bytes@.len() && digest@ == sha256_spec(bytes@),
{
    RunTreeEntry::File { len: bytes.len() as u64, digest: sha256_bytes(bytes) }
}

/// The entry of a file read for the inventory: refused when fewer or more bytes were read
/// than its metadata announced (reads stop one byte past it).
pub fn read_file_entry(relative: &str, announced_len: u64, contents: &[u8]) -> (r: Result<RunTreeEntry, MigrationError>)
    ensures
        contents@.len() == announced_len ==> (r matches Ok(RunTreeEntry::File { len, digest }) && len == announced_len
            && digest@ == sha256_spec(contents@)),
        contents@.len() != announced_len ==> (r matches Err(e) && e.message@ == "run tree file "@ + relative@
            + " changed length while it was inventoried"@),
{
    if contents.len() as u64 != announced_len {
        let mut m = chars_of("run tree file ");
        append_chars(&mut m, &chars_of(relative));
        append_chars(&mut m, &chars_of(" changed length while it was inventoried"));
        return Err(MigrationError::new(string_of(&m)));
    }
    Ok(inventory_file_entry(contents))
}

/// The digest that binds a run tree: the SHA-256 of its records in path order, in
/// lowercase hexadecimal.
pub open spec fn tree_digest_spec(inventory: Seq<(Vec<u8>, RunTreeEntry)>) -> Seq<char> {
    hex_spec(sha256_spec(inventory_records(inventory)))
}

/// `inventory` lists the tree's entries by path, in byte order, each once.
pub fn digest_run_tree_inventory(inventory: &Vec<(Vec<u8>, RunTreeEntry)>) -> (r: String)
    requires
        inventory_sorted(inventory@),
    ensures
        r@ == tree_digest_spec(inventory@),
{
    let mut bytes: Vec<u8> = Vec::new();
    let mut i: usize = 0;
    while i < inventory.len()
        invariant
            i <= inventory.len(),
            bytes@ == inventory_records(inventory@.take(i as int)),
        decreases inventory.len() - i,
    {
        assert(inventory@.take(i + 1).drop_last() =~= inventory@.take(i as int));
        let ghost before = bytes@;
        let path = inventory[i].0.as_slice();
        match &inventory[i].1 {
            RunTreeEntry::Directory => {
                append_framed(&mut bytes, ascii_bytes("directory").as_slice());
                append_framed(&mut bytes, path);
                append_framed(&mut bytes, Vec::<u8>::new().as_slice());
            },
            RunTreeEntry::File { len, digest } => {
                let mut payload = be64_exec(*len);
                append_bytes(&mut payload, digest.as_slice());
                append_framed(&mut bytes, ascii_bytes("file").as_slice());
                append_framed(&mut bytes, path);
                append_framed(&mut bytes, payload.as_slice());
            },
            RunTreeEntry::Symlink(target) => {
                append_framed(&mut bytes, ascii_bytes("symlink").as_slice());
                append_framed(&mut bytes, path);
                append_framed(&mut bytes, target.as_slice());
            },
        }
        assert(bytes@ =~= before + entry_record(inventory@[i as int].0@, inventory@[i as int].1));
        i = i + 1;
    }
    assert(inventory@.take(inventory.len() as int) =~= inventory@);
    let d = sha256_bytes(bytes.as_slice());
    hex_encode_bytes(d.as_slice())
}

/// The staged tree must be the one that the migration intent projected: its digest is
/// refused, with both digests named, when it differs from the projected one.
pub fn validate_projected_staged_inventory(
    inventory: &Vec<(Vec<u8>, RunTreeEntry)>,
    projected_digest: &str,
) -> (r: Result<(), MigrationError>)
    requires
        inventory_sorted(inventory@),
    ensures
        tree_digest_spec(inventory@) == projected_digest@ ==> r is Ok,
        tree_digest_spec(inventory@) != projected_digest@ ==> (r matches Err(e) && e.message@
            == "actual staged migration inventory does not match the intent-bound projection: expected "@
            + projected_digest@ + ", got "@ + tree_digest_spec(inventory@)),
{
    let actual = digest_run_tree_inventory(inventory);
    if seq_eq(&chars_of(actual.as_str()), &chars_of(projected_digest)) {
        return Ok(());
    }
    let mut m = chars_of("actual staged migration inventory does not match the intent-bound projection: expected ");
    append_chars(&mut m, &chars_of(projected_digest));
    append_chars(&mut m, &chars_of(", got "));
    append_chars(&mut m, &chars_of(actual.as_str()));
    Err(MigrationError::new(string_of(&m)))
}

/// The source run that a migration transaction was bound to must still have the bound
/// `run.json`: its digest is refused, with both digests named, when it differs.
pub fn check_source_run_digest(label: &str, expected_run_digest: &str, run_bytes: &[u8]) -> (r: Result<
    (),
    MigrationError,
>)
    ensures
        digest_hex_spec(run_bytes@) == expected_run_digest@ ==> r is Ok,
        digest_hex_spec(run_bytes@) != expected_run_digest@ ==> (r matches Err(e) && e.message@ == label@
            + " source run digest mismatch: expected "@ + expected_run_digest@ + ", got "@ + digest_hex_spec(
            run_bytes@,
        )),
{
    let actual = digest_hex(run_bytes);
    if seq_eq(&chars_of(actual.as_str()), &chars_of(expected_run_digest)) {
        return Ok(());
    }
    let mut m = chars_of(label);
    append_chars(&mut m, &chars_of(" source run digest mismatch: expected "));
    append_chars(&mut m, &chars_of(expected_run_digest));
    append_chars(&mut m, &chars_of(", got "));
    append_chars(&mut m, &chars_of(actual.as_str()));
    Err(MigrationError::new(string_of(&m)))
}

/// The source run must still have the bound tree: its digest is refused, with both
/// digests named, when it differs.
pub fn check_source_tree_digest(
    label: &str,
    expected_tree_digest: &str,
    inventory: &Vec<(Vec<u8>, RunTreeEntry)>,
) -> (r: Result<(), MigrationError>)
    requires
        inventory_sorted(inventory@),
    ensures
        tree_digest_spec(inventory@) == expected_tree_digest@ ==> r is Ok,
        tree_digest_spec(inventory@) != expected_tree_digest@ ==> (r matches Err(e) && e.message@ == label@
            + " source tree digest mismatch: expected "@ + expected_tree_digest@ + ", got "@ + tree_digest_spec(
            inventory@,
        )),
{
    let actual = digest_run_tree_inventory(inventory);
    if seq_eq(&chars_of(actual.as_str()), &chars_of(expected_tree_digest)) {
        return Ok(());
    }
    let mut m = chars_of(label);
    append_chars(&mut m, &chars_of(" source tree digest mismatch: expected "));
    append_chars(&mut m, &chars_of(expected_tree_digest));
    append_chars(&mut m, &chars_of(", got "));
    append_chars(&mut m, &chars_of(actual.as_str()));
    Err(MigrationError::new(string_of(&m)))
}

/// `Path::join` of a file name onto a directory path.
pub open spec fn join_path(dir: Seq<char>, name: Seq<char>) -> Seq<char> {
    if dir.len() == 0 {
        name
    } else if dir.last() == '/' {
        dir + name
    } else {
        dir + "/"@ + name
    }
}

fn join_path_exec(dir: &str, name: &str) -> (r: String)
    ensures
        r@ == join_path(dir@, name@),
{
    let d = chars_of(dir);
    if d.len() == 0 {
        string_of(&chars_of(name))
    } else if d[d.len() - 1] == '/' {
        string_of(&join_chars(&d, &chars_of(name)))
    } else {
        let mut r = d;
        append_chars(&mut r, &chars_of("/"));
        append_chars(&mut r, &chars_of(name));
        string_of(&r)
    }
}

/// The report of a migration that published a migrated run, now or in recovery.
pub fn migrated_outcome(
    run_id: &str,
    source_directory: &str,
    backup_directory: &str,
    status: MigrationStatus,
    migrated_artifacts: Vec<String>,
) -> (r: MigrationOutcome)
    ensures
        r.command@ == "migrate"@,
        r.run_id@ == run_id@,
        r.status == status,
        r.from_schema_version == 0,
        r.to_schema_version == DURABLE_ARTIFACT_SCHEMA_VERSION,
        r.run_directory@ == source_directory@,
        r.backup_directory is Some && r.backup_directory->0@ == backup_directory@,
        r.result_path is Some && r.result_path->0@ == join_path(
            source_directory@,
            "migration-v0-v1.result.json"@,
        ),
        r.migrated_artifacts@ == migrated_artifacts@,
{
    MigrationOutcome {
        command: string_of(&chars_of("migrate")),
        run_id: string_of(&chars_of(run_id)),
        status,
        from_schema_version: 0,
        to_schema_version: DURABLE_ARTIFACT_SCHEMA_VERSION,
        run_directory: string_of(&chars_of(source_directory)),
        backup_directory: Some(string_of(&chars_of(backup_directory))),
        result_path: Some(join_path_exec(source_directory, "migration-v0-v1.result.json")),
        migrated_artifacts,
    }
}

/// The report of a run that was already current; the backup and the result file are
/// named where they exist.
pub fn current_outcome(
    run_id: &str,
    source_directory: &str,
    backup_directory: &str,
    backup_exists: bool,
    result_file_exists: bool,
) -> (r: MigrationOutcome)
    ensures
        r.command@ == "migrate"@,
        r.run_id@ == run_id@,
        r.status == MigrationStatus::AlreadyCurrent,
        r.from_schema_version == DURABLE_ARTIFACT_SCHEMA_VERSION,
        r.to_schema_version == DURABLE_ARTIFACT_SCHEMA_VERSION,
        r.run_directory@ == source_directory@,
        r.backup_directory is Some <==> backup_exists,
        backup_exists ==> r.backup_directory->0@ == backup_directory@,
        r.result_path is Some <==> result_file_exists,
        result_file_exists ==> r.result_path->0@ == join_path(
            source_directory@,
            "migration-v0-v1.result.json"@,
        ),
        r.migrated_artifacts@.len() == 0,
{
    MigrationOutcome {
        command: string_of(&chars_of("migrate")),
        run_id: string_of(&chars_of(run_id)),
        status: MigrationStatus::AlreadyCurrent,
        from_schema_version: DURABLE_ARTIFACT_SCHEMA_VERSION,
        to_schema_version: DURABLE_ARTIFACT_SCHEMA_VERSION,
        run_directory: string_of(&chars_of(source_directory)),
        backup_directory: if backup_exists {
            Some(string_of(&chars_of(backup_directory)))
        } else {
            None
        },
        result_path: if result_file_exists {
            Some(join_path_exec(source_directory, "migration-v0-v1.result.json"))
        } else {
            None
        },
        migrated_artifacts: Vec::new(),
    }
}


/// The bytes of the regular files of an inventory.
pub open spec fn inventory_file_bytes(inventory: Seq<(Vec<u8>, RunTreeEntry)>) -> nat
    decreases inventory.len(),
{
    if inventory.len() == 0 {
        0
    } else {
        inventory_file_bytes(inventory.drop_last()) + match inventory.last().1 {
            RunTreeEntry::File { len, .. } => len as nat,
            _ => 0nat,
        }
    }
}

/// Refuses a projected run tree over the entry cap or the byte cap of a run tree.
pub fn validate_projected_migration_inventory(
    inventory: &Vec<(Vec<u8>, RunTreeEntry)>,
    entry_cap: usize,
    byte_cap: u64,
) -> (r: Result<(), MigrationError>)
    ensures
        inventory@.len() > entry_cap ==> r is Err && r->Err_0.message@ == "projected migration tree exceeds its "@
            + crate::number::decimal(entry_cap as nat) + "-entry cap"@,
        inventory@.len() <= entry_cap && inventory_file_bytes(inventory@) > u64::MAX ==> r is Err
            && r->Err_0.message@ == "projected migration byte total overflowed"@,
        inventory@.len() <= entry_cap && inventory_file_bytes(inventory@) <= u64::MAX
            && inventory_file_bytes(inventory@) > byte_cap ==> r is Err && r->Err_0.message@
            == "projected migration tree exceeds its "@ + crate::number::decimal(byte_cap as nat)
            + "-byte cap"@,
        r is Ok <==> inventory@.len() <= entry_cap && inventory_file_bytes(inventory@) <= byte_cap,
{
    if inventory.len() > entry_cap {
        let mut m = chars_of("projected migration tree exceeds its ");
        append_chars(&mut m, &crate::number::decimal_exec(entry_cap as u64));
        append_chars(&mut m, &chars_of("-entry cap"));
        return Err(MigrationError::new(string_of(&m)));
    }
    let mut total: u64 = 0;
    let mut i: usize = 0;
    while i < inventory.len()
        invariant
            i <= inventory.len() <= entry_cap,
            total as nat == inventory_file_bytes(inventory@.take(i as int)),
        decreases inventory.len() - i,
    {
        assert(inventory@.take(i + 1).drop_last() =~= inventory@.take(i as int));
        let len = match &inventory[i].1 {
            RunTreeEntry::File { len, .. } => *len,
            _ => 0,
        };
        total = match total.checked_add(len) {
            Some(t) => t,
            None => {
                proof {
                    lemma_file_bytes_monotone(inventory@, i + 1);
                }
                return Err(
                    MigrationError::new(string_of(&chars_of("projected migration byte total overflowed"))),
                );
            },
        };
        i = i + 1;
    }
    assert(inventory@.take(inventory.len() as int) =~= inventory@);
    if total > byte_cap {
        let mut m = chars_of("projected migration tree exceeds its ");
        append_chars(&mut m, &crate::number::decimal_exec(byte_cap));
        append_chars(&mut m, &chars_of("-byte cap"));
        return Err(MigrationError::new(string_of(&m)));
    }
    Ok(())
}

proof fn lemma_file_bytes_monotone(inventory: Seq<(Vec<u8>, RunTreeEntry)>, i: int)
    requires
        0 <= i <= inventory.len(),
    ensures
        inventory_file_bytes(inventory.take(i)) <= inventory_file_bytes(inventory),
    decreases inventory.len() - i,
{
    if i < inventory.len() {
        lemma_file_bytes_monotone(inventory, i + 1);
        assert(inventory.take(i + 1).drop_last() =~= inventory.take(i));
    } else {
        assert(inventory.take(i) =~= inventory);
    }
}


/// The digest aliases that a rewrite collected, as a map: a later pair for the same digest
/// replaces an earlier one.
pub open spec fn alias_map(pairs: Seq<(String, String)>) -> Map<Seq<char>, Seq<char>>
    decreases pairs.len(),
{
    if pairs.len() == 0 {
        Map::empty()
    } else {
        alias_map(pairs.drop_last()).insert(pairs.last().0@, pairs.last().1@)
    }
}

/// A digest with its aliases followed until one has no alias or the chain comes back to a
/// digest it has passed.
pub open spec fn follow_aliases(m: Map<Seq<char>, Seq<char>>, cur: Seq<char>, seen: Set<Seq<char>>) -> Seq<char>
    decreases m.dom().len() - seen.len(),
    when m.dom().finite() && seen.subset_of(m.dom())
{
    if seen.contains(cur) || !m.dom().contains(cur) {
        cur
    } else {
        proof {
            vstd::set_lib::lemma_len_subset(seen, m.dom());
            vstd::set_lib::lemma_len_subset(seen.insert(cur), m.dom());
        }
        follow_aliases(m, m[cur], seen.insert(cur))
    }
}

proof fn lemma_alias_map_finite(pairs: Seq<(String, String)>)
    ensures
        alias_map(pairs).dom().finite(),
    decreases pairs.len(),
{
    if pairs.len() > 0 {
        lemma_alias_map_finite(pairs.drop_last());
    }
}

proof fn lemma_alias_map_at(pairs: Seq<(String, String)>, key: Seq<char>, j: int)
    requires
        0 <= j < pairs.len(),
        pairs[j].0@ == key,
        forall|k: int| j < k < pairs.len() ==> (#[trigger] pairs[k]).0@ != key,
    ensures
        alias_map(pairs).dom().contains(key),
        alias_map(pairs)[key] == pairs[j].1@,
    decreases pairs.len(),
{
    if j < pairs.len() - 1 {
        let prev = pairs.drop_last();
        assert forall|k: int| j < k < prev.len() implies (#[trigger] prev[k]).0@ != key by {
            assert(prev[k] == pairs[k]);
        }
        lemma_alias_map_at(prev, key, j);
        assert(pairs[pairs.len() - 1] == pairs.last());
    }
}

proof fn lemma_alias_map_absent(pairs: Seq<(String, String)>, key: Seq<char>)
    requires
        forall|k: int| 0 <= k < pairs.len() ==> (#[trigger] pairs[k]).0@ != key,
    ensures
        !alias_map(pairs).dom().contains(key),
    decreases pairs.len(),
{
    if pairs.len() > 0 {
        let prev = pairs.drop_last();
        assert forall|k: int| 0 <= k < prev.len() implies (#[trigger] prev[k]).0@ != key by {
            assert(prev[k] == pairs[k]);
        }
        lemma_alias_map_absent(prev, key);
        assert(pairs[pairs.len() - 1] == pairs.last());
    }
}

fn alias_of(aliases: &Vec<(String, String)>, key: &String) -> (r: Option<String>)
    ensures
        match r {
            Some(v) => alias_map(aliases@).dom().contains(key@) && alias_map(aliases@)[key@] == v@,
            None => !alias_map(aliases@).dom().contains(key@),
        },
{
    let kc = chars_of(key.as_str());
    let mut i: usize = aliases.len();
    while i > 0
        invariant
            i <= aliases.len(),
            kc@ == key@,
            forall|k: int| i <= k < aliases.len() ==> (#[trigger] aliases@[k]).0@ != key@,
        decreases i,
    {
        i = i - 1;
        if seq_eq(&chars_of(aliases[i].0.as_str()), &kc) {
            proof {
                lemma_alias_map_at(aliases@, key@, i as int);
            }
            return Some(aliases[i].1.clone());
        }
    }
    proof {
        lemma_alias_map_absent(aliases@, key@);
    }
    None
}

fn holds_string(v: &Vec<String>, x: &String) -> (r: bool)
    ensures
        r == exists|j: int| 0 <= j < v.len() && (#[trigger] v@[j])@ == x@,
{
    let xc = chars_of(x.as_str());
    let mut i: usize = 0;
    while i < v.len()
        invariant
            i <= v.len(),
            xc@ == x@,
            forall|j: int| 0 <= j < i ==> (#[trigger] v@[j])@ != x@,
        decreases v.len() - i,
    {
        if seq_eq(&chars_of(v[i].as_str()), &xc) {
            return true;
        }
        i = i + 1;
    }
    false
}

/// A digest rewritten through the collected aliases: each alias is followed until a digest
/// has none or the chain returns to a digest it has passed.
pub fn resolve_digest_alias(value: &String, aliases: &Vec<(String, String)>) -> (r: String)
    ensures
        r@ == follow_aliases(alias_map(aliases@), value@, Set::empty()),
{
    let ghost m = alias_map(aliases@);
    proof {
        lemma_alias_map_finite(aliases@);
    }
    let mut current = value.clone();
    let mut seen: Vec<String> = Vec::new();
    let ghost mut seen_set: Set<Seq<char>> = Set::empty();
    let mut done = false;
    while !done
        invariant
            m == alias_map(aliases@),
            m.dom().finite(),
            seen_set.subset_of(m.dom()),
            seen_set.finite(),
            seen_set.len() == seen.len(),
            forall|x: Seq<char>| seen_set.contains(x) <==> exists|j: int| 0 <= j < seen.len() && (#[trigger] seen@[j])@ == x,
            done ==> current@ == follow_aliases(m, value@, Set::empty()),
            !done ==> follow_aliases(m, value@, Set::empty()) == follow_aliases(m, current@, seen_set),
        decreases m.dom().len() - seen.len() + (if done {
            0int
        } else {
            1int
        }),
    {
        proof {
            vstd::set_lib::lemma_len_subset(seen_set, m.dom());
        }
        if holds_string(&seen, &current) {
            done = true;
        } else {
            match alias_of(aliases, &current) {
                None => {
                    done = true;
                },
                Some(next) => {
                    proof {
                        vstd::set_lib::lemma_len_subset(seen_set.insert(current@), m.dom());
                    }
                    let ghost old_seen = seen@;
                    let ghost old_set = seen_set;
                    let ghost cur = current@;
                    seen.push(current);
                    proof {
                        seen_set = seen_set.insert(cur);
                        assert forall|x: Seq<char>| seen_set.contains(x) <==> exists|j: int|
                            0 <= j < seen.len() && (#[trigger] seen@[j])@ == x by {
                            if seen_set.contains(x) {
                                if x == cur {
                                    assert(seen@[old_seen.len() as int]@ == x);
                                } else {
                                    assert(old_set.contains(x));
                                    let j = choose|j: int| 0 <= j < old_seen.len() && (#[trigger] old_seen[j])@ == x;
                                    assert(seen@[j] == old_seen[j]);
                                }
                            }
                            if exists|j: int| 0 <= j < seen.len() && (#[trigger] seen@[j])@ == x {
                                let j = choose|j: int| 0 <= j < seen.len() && (#[trigger] seen@[j])@ == x;
                                if j < old_seen.len() {
                                    assert(old_seen[j] == seen@[j]);
                                }
                            }
                        }
                    }
                    current = next;
                },
            }
        }
    }
    current
}

} // verus!
