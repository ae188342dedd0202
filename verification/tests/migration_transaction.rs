use seaf_loop::migration_transaction::{migration_step, MigrationAction, MigrationEnd, MigrationEvent, MigrationState};

#[test]
fn successful_legacy_run_walks_the_whole_transaction() {
    let mut state = MigrationState::Recovering;
    let mut actions = Vec::new();
    let events = [MigrationEvent::Recovered { finished: false }, MigrationEvent::Authenticated { legacy: true, backup_exists: false }]
        .into_iter()
        .chain(std::iter::repeat(MigrationEvent::Succeeded).take(8));
    for event in events {
        let (next, action) = migration_step(state, event);
        state = next;
        actions.push(action);
    }
    assert_eq!(state, MigrationState::Done(MigrationEnd::Migrated));
    assert_eq!(
        actions,
        vec![
            MigrationAction::AuthenticateSource,
            MigrationAction::PublishIntent,
            MigrationAction::CopyToStaged,
            MigrationAction::RewriteStaged,
            MigrationAction::AuthenticateStaged,
            MigrationAction::RenameSourceToBackup,
            MigrationAction::RenameStagedToSource,
            MigrationAction::RemoveOwnershipMarker,
            MigrationAction::RemoveIntent,
            MigrationAction::Report(MigrationEnd::Migrated),
        ]
    );
}

#[test]
fn recovery_current_runs_and_existing_backups_end_early() {
    assert_eq!(
        migration_step(MigrationState::Recovering, MigrationEvent::Recovered { finished: true }),
        (MigrationState::Done(MigrationEnd::Recovered), MigrationAction::Report(MigrationEnd::Recovered))
    );
    assert_eq!(
        migration_step(MigrationState::Authenticating, MigrationEvent::Authenticated { legacy: false, backup_exists: true }),
        (MigrationState::ValidatingCurrent, MigrationAction::ValidateCurrentAuthority)
    );
    assert_eq!(
        migration_step(MigrationState::Authenticating, MigrationEvent::Authenticated { legacy: true, backup_exists: true }),
        (MigrationState::Failed, MigrationAction::RefuseExistingBackup)
    );
    assert_eq!(
        migration_step(MigrationState::BackingUp, MigrationEvent::Failed),
        (MigrationState::Failed, MigrationAction::Stop)
    );
    assert_eq!(
        migration_step(MigrationState::Done(MigrationEnd::Current), MigrationEvent::Succeeded),
        (MigrationState::Done(MigrationEnd::Current), MigrationAction::Stop)
    );
}
