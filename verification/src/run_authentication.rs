//! The byte and digest bindings that authenticate a run before migration: the selected
//! run's ID, the ticket and its snapshot, the policy, each referenced input, the
//! Development step references, and the one unsupported legacy shape.
use vstd::prelude::*;

use crate::digest::{digest_hex, digest_hex_spec};
use crate::migration::MigrationError;
use crate::text::{append_chars, chars_of, seq_eq, string_of};

verus! {

fn same_bytes(a: &[u8], b: &[u8]) -> (r: bool)
    ensures
        r == (a@ == b@),
{
    if a.len() != b.len() {
        return false;
    }
    let mut i: usize = 0;
    while i < a.len()
        invariant
            a.len() == b.len(),
            i <= a.len(),
            forall|j: int| 0 <= j < i ==> a@[j] == b@[j],
        decreases a.len() - i,
    {
        if a[i] != b[i] {
            return false;
        }
        i = i + 1;
    }
    assert(a@ =~= b@);
    true
}

fn same_text(a: &str, b: &str) -> (r: bool)
    ensures
        r == (a@ == b@),
{
    seq_eq(&chars_of(a), &chars_of(b))
}

/// The persisted run must be the selected one.
pub fn check_run_id(persisted: &str, selected: &str) -> (r: Result<(), MigrationError>)
    ensures
        persisted@ == selected@ ==> r is Ok,
        persisted@ != selected@ ==> (r matches Err(e) && e.message@
            == "persisted run_id does not match the selected run ID"@),
{
    if !same_text(persisted, selected) {
        return Err(MigrationError::new(string_of(&chars_of("persisted run_id does not match the selected run ID"))));
    }
    Ok(())
}

/// The ticket input and its snapshot must be the same bytes, bound by the run's ticket
/// digest.
pub fn check_ticket_binding(ticket: &[u8], snapshot: &[u8], expected_digest: &str) -> (r: Result<(), MigrationError>)
    ensures
        ticket@ == snapshot@ && digest_hex_spec(ticket@) == expected_digest@ ==> r is Ok,
        !(ticket@ == snapshot@ && digest_hex_spec(ticket@) == expected_digest@) ==> (r matches Err(e) && e.message@
            == "ticket input/snapshot bytes or digest do not match LoopRun authority"@),
{
    if !same_bytes(ticket, snapshot) || !same_text(digest_hex(ticket).as_str(), expected_digest) {
        return Err(
            MigrationError::new(
                string_of(&chars_of("ticket input/snapshot bytes or digest do not match LoopRun authority")),
            ),
        );
    }
    Ok(())
}

/// The policy input must be bound by the run's policy digest.
pub fn check_policy_binding(policy: &[u8], expected_digest: &str) -> (r: Result<(), MigrationError>)
    ensures
        digest_hex_spec(policy@) == expected_digest@ ==> r is Ok,
        digest_hex_spec(policy@) != expected_digest@ ==> (r matches Err(e) && e.message@
            == "policy input digest does not match LoopRun authority"@),
{
    if !same_text(digest_hex(policy).as_str(), expected_digest) {
        return Err(MigrationError::new(string_of(&chars_of("policy input digest does not match LoopRun authority"))));
    }
    Ok(())
}

/// A referenced input must be bound by its recorded digest; the refusal names both.
pub fn check_referenced_digest(relative: &str, expected_digest: &str, bytes: &[u8]) -> (r: Result<(), MigrationError>)
    ensures
        digest_hex_spec(bytes@) == expected_digest@ ==> r is Ok,
        digest_hex_spec(bytes@) != expected_digest@ ==> (r matches Err(e) && e.message@ == "authenticated artifact "@
            + relative@ + " digest mismatch: expected "@ + expected_digest@ + ", got "@ + digest_hex_spec(bytes@)),
{
    let actual = digest_hex(bytes);
    if same_text(actual.as_str(), expected_digest) {
        return Ok(());
    }
    let mut m = chars_of("authenticated artifact ");
    append_chars(&mut m, &chars_of(relative));
    append_chars(&mut m, &chars_of(" digest mismatch: expected "));
    append_chars(&mut m, &chars_of(expected_digest));
    append_chars(&mut m, &chars_of(", got "));
    append_chars(&mut m, &chars_of(actual.as_str()));
    Err(MigrationError::new(string_of(&m)))
}

/// A Development step names its evidence by path and digest together or not at all.
pub fn check_development_reference(path: &Option<String>, digest: &Option<String>) -> (r: Result<bool, MigrationError>)
    ensures
        path is Some && digest is Some ==> r == Ok::<bool, MigrationError>(true),
        path is None && digest is None ==> r == Ok::<bool, MigrationError>(false),
        path is Some != digest is Some ==> (r matches Err(e) && e.message@
            == "Development step artifact path/digest authority is malformed"@),
{
    match (path, digest) {
        (Some(_), Some(_)) => Ok(true),
        (None, None) => Ok(false),
        _ => Err(
            MigrationError::new(string_of(&chars_of("Development step artifact path/digest authority is malformed"))),
        ),
    }
}

/// Migration refuses a legacy run that is terminal (passed, promoted or failed), was
/// approved and holds evaluation recovery history.
pub open spec fn unsupported_legacy_shape(has_legacy: bool, terminal: bool, approved: bool, recovered: bool) -> bool {
    has_legacy && terminal && approved && recovered
}

pub fn check_legacy_shape_supported(has_legacy: bool, terminal: bool, approved: bool, recovered: bool) -> (r: Result<
    (),
    MigrationError,
>)
    ensures
        !unsupported_legacy_shape(has_legacy, terminal, approved, recovered) ==> r is Ok,
        unsupported_legacy_shape(has_legacy, terminal, approved, recovered) ==> (r matches Err(e) && e.message@
            == "legacy terminal runs with evaluation recovery history are not supported by v0-to-v1 migration; preserve the run and use the current version that created its recovery authority"@),
{
    if has_legacy && terminal && approved && recovered {
        return Err(
            MigrationError::new(
                string_of(
                    &chars_of(
                        "legacy terminal runs with evaluation recovery history are not supported by v0-to-v1 migration; preserve the run and use the current version that created its recovery authority",
                    ),
                ),
            ),
        );
    }
    Ok(())
}

} // verus!
