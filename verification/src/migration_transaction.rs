//! The forward migration transaction as a state machine: each step takes what the last
//! action reported and names the next action. The caller performs the actions (file
//! system work) and reports back; every decision between them is made here.
use vstd::prelude::*;

use crate::migration::{lemma_every_cut_recovers, plan_for, presence_after, presence_at, PublicationPhase};

verus! {

/// How a finished request ended.
#[derive(Debug, Clone, Copy, PartialEq, Eq, Structural)]
pub enum MigrationEnd {
    /// An interrupted transaction was brought to its end by recovery.
    Recovered,
    /// The run was already current.
    Current,
    /// The run was migrated by this request.
    Migrated,
}

/// Where a migration request stands.
#[derive(Debug, Clone, Copy, PartialEq, Eq, Structural)]
pub enum MigrationState {
    Recovering,
    Authenticating,
    ValidatingCurrent,
    PublishingIntent,
    Staging,
    Rewriting,
    AuthenticatingStaged,
    BackingUp,
    Publishing,
    RemovingOwnership,
    RemovingIntent,
    Done(MigrationEnd),
    Failed,
}

/// What the last action reported.
#[derive(Debug, Clone, Copy, PartialEq, Eq, Structural)]
pub enum MigrationEvent {
    /// Recovery of an existing transaction ran; `finished` when it produced the outcome.
    Recovered { finished: bool },
    /// The source authenticated; `legacy` when it holds legacy artifacts, `backup_exists`
    /// when the deterministic backup path is taken.
    Authenticated { legacy: bool, backup_exists: bool },
    /// The action completed.
    Succeeded,
    /// The action failed; its error ends the request.
    Failed,
}

/// What to do next.
#[derive(Debug, Clone, Copy, PartialEq, Eq, Structural)]
pub enum MigrationAction {
    RecoverExisting,
    AuthenticateSource,
    ValidateCurrentAuthority,
    /// Refuse: a backup exists without a recoverable intent.
    RefuseExistingBackup,
    PublishIntent,
    CopyToStaged,
    RewriteStaged,
    AuthenticateStaged,
    RenameSourceToBackup,
    RenameStagedToSource,
    RemoveOwnershipMarker,
    RemoveIntent,
    Report(MigrationEnd),
    Stop,
}

pub open spec fn is_terminal(s: MigrationState) -> bool {
    s is Done || s is Failed
}

/// The next state and action after `event` in `state`. An event that the state does not
/// expect, like a failure, ends the request.
pub open spec fn migration_step_spec(state: MigrationState, event: MigrationEvent) -> (MigrationState, MigrationAction) {
    let fail = (MigrationState::Failed, MigrationAction::Stop);
    match (state, event) {
        (MigrationState::Done(end), _) => (MigrationState::Done(end), MigrationAction::Stop),
        (MigrationState::Failed, _) => fail,
        (_, MigrationEvent::Failed) => fail,
        (MigrationState::Recovering, MigrationEvent::Recovered { finished }) => if finished {
            (MigrationState::Done(MigrationEnd::Recovered), MigrationAction::Report(MigrationEnd::Recovered))
        } else {
            (MigrationState::Authenticating, MigrationAction::AuthenticateSource)
        },
        (MigrationState::Authenticating, MigrationEvent::Authenticated { legacy, backup_exists }) => if !legacy {
            (MigrationState::ValidatingCurrent, MigrationAction::ValidateCurrentAuthority)
        } else if backup_exists {
            (MigrationState::Failed, MigrationAction::RefuseExistingBackup)
        } else {
            (MigrationState::PublishingIntent, MigrationAction::PublishIntent)
        },
        (MigrationState::ValidatingCurrent, MigrationEvent::Succeeded) => (
            MigrationState::Done(MigrationEnd::Current),
            MigrationAction::Report(MigrationEnd::Current),
        ),
        (MigrationState::PublishingIntent, MigrationEvent::Succeeded) => (MigrationState::Staging, MigrationAction::CopyToStaged),
        (MigrationState::Staging, MigrationEvent::Succeeded) => (MigrationState::Rewriting, MigrationAction::RewriteStaged),
        (MigrationState::Rewriting, MigrationEvent::Succeeded) => (
            MigrationState::AuthenticatingStaged,
            MigrationAction::AuthenticateStaged,
        ),
        (MigrationState::AuthenticatingStaged, MigrationEvent::Succeeded) => (
            MigrationState::BackingUp,
            MigrationAction::RenameSourceToBackup,
        ),
        (MigrationState::BackingUp, MigrationEvent::Succeeded) => (MigrationState::Publishing, MigrationAction::RenameStagedToSource),
        (MigrationState::Publishing, MigrationEvent::Succeeded) => (
            MigrationState::RemovingOwnership,
            MigrationAction::RemoveOwnershipMarker,
        ),
        (MigrationState::RemovingOwnership, MigrationEvent::Succeeded) => (MigrationState::RemovingIntent, MigrationAction::RemoveIntent),
        (MigrationState::RemovingIntent, MigrationEvent::Succeeded) => (
            MigrationState::Done(MigrationEnd::Migrated),
            MigrationAction::Report(MigrationEnd::Migrated),
        ),
        _ => fail,
    }
}

/// One step of the transaction.
pub fn migration_step(state: MigrationState, event: MigrationEvent) -> (r: (MigrationState, MigrationAction))
    ensures
        r == migration_step_spec(state, event),
{
    let fail = (MigrationState::Failed, MigrationAction::Stop);
    match (state, event) {
        (MigrationState::Done(end), _) => (MigrationState::Done(end), MigrationAction::Stop),
        (MigrationState::Failed, _) => fail,
        (_, MigrationEvent::Failed) => fail,
        (MigrationState::Recovering, MigrationEvent::Recovered { finished }) => if finished {
            (MigrationState::Done(MigrationEnd::Recovered), MigrationAction::Report(MigrationEnd::Recovered))
        } else {
            (MigrationState::Authenticating, MigrationAction::AuthenticateSource)
        },
        (MigrationState::Authenticating, MigrationEvent::Authenticated { legacy, backup_exists }) => if !legacy {
            (MigrationState::ValidatingCurrent, MigrationAction::ValidateCurrentAuthority)
        } else if backup_exists {
            (MigrationState::Failed, MigrationAction::RefuseExistingBackup)
        } else {
            (MigrationState::PublishingIntent, MigrationAction::PublishIntent)
        },
        (MigrationState::ValidatingCurrent, MigrationEvent::Succeeded) => (
            MigrationState::Done(MigrationEnd::Current),
            MigrationAction::Report(MigrationEnd::Current),
        ),
        (MigrationState::PublishingIntent, MigrationEvent::Succeeded) => (MigrationState::Staging, MigrationAction::CopyToStaged),
        (MigrationState::Staging, MigrationEvent::Succeeded) => (MigrationState::Rewriting, MigrationAction::RewriteStaged),
        (MigrationState::Rewriting, MigrationEvent::Succeeded) => (
            MigrationState::AuthenticatingStaged,
            MigrationAction::AuthenticateStaged,
        ),
        (MigrationState::AuthenticatingStaged, MigrationEvent::Succeeded) => (
            MigrationState::BackingUp,
            MigrationAction::RenameSourceToBackup,
        ),
        (MigrationState::BackingUp, MigrationEvent::Succeeded) => (MigrationState::Publishing, MigrationAction::RenameStagedToSource),
        (MigrationState::Publishing, MigrationEvent::Succeeded) => (
            MigrationState::RemovingOwnership,
            MigrationAction::RemoveOwnershipMarker,
        ),
        (MigrationState::RemovingOwnership, MigrationEvent::Succeeded) => (MigrationState::RemovingIntent, MigrationAction::RemoveIntent),
        (MigrationState::RemovingIntent, MigrationEvent::Succeeded) => (
            MigrationState::Done(MigrationEnd::Migrated),
            MigrationAction::Report(MigrationEnd::Migrated),
        ),
        _ => fail,
    }
}

/// How many steps a state is at most from its end.
pub open spec fn rank(s: MigrationState) -> nat {
    match s {
        MigrationState::Recovering => 11,
        MigrationState::Authenticating => 10,
        MigrationState::ValidatingCurrent => 1,
        MigrationState::PublishingIntent => 8,
        MigrationState::Staging => 7,
        MigrationState::Rewriting => 6,
        MigrationState::AuthenticatingStaged => 5,
        MigrationState::BackingUp => 4,
        MigrationState::Publishing => 3,
        MigrationState::RemovingOwnership => 2,
        MigrationState::RemovingIntent => 1,
        MigrationState::Done(_) => 0,
        MigrationState::Failed => 0,
    }
}

/// The entries on disk while the request is in a state, before its action has run.
pub open spec fn durable_phase(s: MigrationState) -> PublicationPhase {
    match s {
        MigrationState::Staging => PublicationPhase::AfterIntent,
        MigrationState::Rewriting => PublicationPhase::DuringStaging,
        MigrationState::AuthenticatingStaged => PublicationPhase::DuringStaging,
        MigrationState::BackingUp => PublicationPhase::AfterStaged,
        MigrationState::Publishing => PublicationPhase::AfterBackup,
        MigrationState::RemovingOwnership => PublicationPhase::AfterPublish,
        MigrationState::RemovingIntent => PublicationPhase::AfterOwnershipRemoval,
        MigrationState::Done(MigrationEnd::Migrated) => PublicationPhase::Complete,
        _ => PublicationPhase::BeforeIntent,
    }
}

/// The state after each event in turn.
pub open spec fn run_steps(s: MigrationState, events: Seq<MigrationEvent>) -> MigrationState
    decreases events.len(),
{
    if events.len() == 0 {
        s
    } else {
        run_steps(migration_step_spec(s, events[0]).0, events.skip(1))
    }
}

/// The events of a migration in which every action succeeds.
pub open spec fn successful_run() -> Seq<MigrationEvent> {
    seq![MigrationEvent::Recovered { finished: false }, MigrationEvent::Authenticated { legacy: true, backup_exists: false }]
        + Seq::new(8, |i: int| MigrationEvent::Succeeded)
}

proof fn lemma_step_decreases(s: MigrationState, e: MigrationEvent)
    ensures
        !is_terminal(s) ==> rank(migration_step_spec(s, e).0) < rank(s),
        is_terminal(s) ==> is_terminal(migration_step_spec(s, e).0),
{
}

/// Every run of steps ends: from any state, as many events as its rank bring it to the
/// finished request or to a failure, whatever the events are. A request that stops
/// there, or is cut at any state on the way, leaves entries that recovery answers with a
/// plan ending in the finished migration or back at the untouched source.
pub proof fn lemma_every_run_ends(s: MigrationState, events: Seq<MigrationEvent>, staged_authenticates: bool)
    requires
        events.len() >= rank(s),
    ensures
        is_terminal(run_steps(s, events)),
        plan_for(presence_at(durable_phase(run_steps(s, events)))) is Some,
        presence_after(plan_for(presence_at(durable_phase(run_steps(s, events))))->0, staged_authenticates)
            == presence_at(PublicationPhase::Complete) || presence_after(
            plan_for(presence_at(durable_phase(run_steps(s, events))))->0,
            staged_authenticates,
        ) == presence_at(PublicationPhase::BeforeIntent),
    decreases events.len(),
{
    if events.len() > 0 {
        lemma_step_decreases(s, events[0]);
        lemma_every_run_ends(migration_step_spec(s, events[0]).0, events.skip(1), staged_authenticates);
    } else {
        lemma_every_cut_recovers(durable_phase(s), staged_authenticates);
    }
    lemma_every_cut_recovers(durable_phase(run_steps(s, events)), staged_authenticates);
}

/// A cut at any state leaves entries that recovery brings to the finished migration or
/// back to the untouched source.
pub proof fn lemma_every_state_recovers(s: MigrationState, staged_authenticates: bool)
    ensures
        plan_for(presence_at(durable_phase(s))) is Some,
        presence_after(plan_for(presence_at(durable_phase(s)))->0, staged_authenticates) == presence_at(
            PublicationPhase::Complete,
        ) || presence_after(plan_for(presence_at(durable_phase(s)))->0, staged_authenticates) == presence_at(
            PublicationPhase::BeforeIntent,
        ),
{
    lemma_every_cut_recovers(durable_phase(s), staged_authenticates);
}

/// When every action succeeds on a legacy run, the request migrates it and leaves the
/// finished migration on disk.
pub proof fn lemma_successful_run_migrates()
    ensures
        run_steps(MigrationState::Recovering, successful_run()) == MigrationState::Done(MigrationEnd::Migrated),
        durable_phase(MigrationState::Done(MigrationEnd::Migrated)) == PublicationPhase::Complete,
{
    let e = successful_run();
    reveal_with_fuel(run_steps, 11);
    assert(e.skip(1)[0] == MigrationEvent::Authenticated { legacy: true, backup_exists: false });
    assert forall|k: int| 2 <= k < 10 implies e[k] == MigrationEvent::Succeeded by {}
    assert(e.skip(1).skip(1) =~= Seq::new(8, |i: int| MigrationEvent::Succeeded));
    let ok = Seq::new(8, |i: int| MigrationEvent::Succeeded);
    assert(ok.skip(1) =~= Seq::new(7, |i: int| MigrationEvent::Succeeded));
    assert(ok.skip(1).skip(1) =~= Seq::new(6, |i: int| MigrationEvent::Succeeded));
    assert(ok.skip(1).skip(1).skip(1) =~= Seq::new(5, |i: int| MigrationEvent::Succeeded));
    assert(ok.skip(1).skip(1).skip(1).skip(1) =~= Seq::new(4, |i: int| MigrationEvent::Succeeded));
    assert(ok.skip(1).skip(1).skip(1).skip(1).skip(1) =~= Seq::new(3, |i: int| MigrationEvent::Succeeded));
    assert(ok.skip(1).skip(1).skip(1).skip(1).skip(1).skip(1) =~= Seq::new(2, |i: int| MigrationEvent::Succeeded));
    assert(ok.skip(1).skip(1).skip(1).skip(1).skip(1).skip(1).skip(1) =~= Seq::new(1, |i: int| MigrationEvent::Succeeded));
    assert(ok.skip(1).skip(1).skip(1).skip(1).skip(1).skip(1).skip(1).skip(1) =~= Seq::<MigrationEvent>::empty());
}

} // verus!
