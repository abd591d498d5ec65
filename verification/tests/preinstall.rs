use dst_admin_rust::level::{
    preinstall_start, preinstall_step, PreinstallAction, PreinstallEvent, PreinstallFailure, PreinstallState,
};

fn run(events: &[PreinstallEvent]) -> Vec<PreinstallAction> {
    let (mut state, first) = preinstall_start();
    assert!(first == PreinstallAction::CheckTemplate);
    let mut actions = Vec::new();
    for event in events {
        let (next, action) = preinstall_step(state, *event);
        actions.push(action);
        state = next;
    }
    assert!(state == PreinstallState::Finished);
    actions
}

#[test]
fn preinstall_over_an_existing_cluster_stages_it_and_removes_it_after() {
    let actions = run(&[
        PreinstallEvent::Present,
        PreinstallEvent::Absent,
        PreinstallEvent::Present,
        PreinstallEvent::Succeeded,
        PreinstallEvent::Succeeded,
        PreinstallEvent::Succeeded,
        PreinstallEvent::Succeeded,
    ]);
    assert!(actions == vec![
        PreinstallAction::CheckStaging,
        PreinstallAction::CheckExisting,
        PreinstallAction::MoveExistingToStaging,
        PreinstallAction::CopyTemplate,
        PreinstallAction::CopyIdentityFiles,
        PreinstallAction::RemoveStaging,
        PreinstallAction::Done,
    ]);
}

#[test]
fn preinstall_refuses_a_left_over_staging_folder_and_a_missing_template() {
    assert!(run(&[PreinstallEvent::Present, PreinstallEvent::Present])
        == vec![PreinstallAction::CheckStaging, PreinstallAction::Fail(PreinstallFailure::StagingExists)]);
    assert!(run(&[PreinstallEvent::Absent]) == vec![PreinstallAction::Fail(PreinstallFailure::TemplateMissing)]);
}

#[test]
fn failed_copies_roll_back() {
    let staged = run(&[
        PreinstallEvent::Present,
        PreinstallEvent::Absent,
        PreinstallEvent::Present,
        PreinstallEvent::Succeeded,
        PreinstallEvent::Failed,
        PreinstallEvent::Succeeded,
        PreinstallEvent::Failed,
    ]);
    assert!(staged == vec![
        PreinstallAction::CheckStaging,
        PreinstallAction::CheckExisting,
        PreinstallAction::MoveExistingToStaging,
        PreinstallAction::CopyTemplate,
        PreinstallAction::RemovePartialCluster,
        PreinstallAction::PutStagingBack,
        PreinstallAction::Fail(PreinstallFailure::Copy),
    ]);
    let fresh = run(&[
        PreinstallEvent::Present,
        PreinstallEvent::Absent,
        PreinstallEvent::Absent,
        PreinstallEvent::Succeeded,
        PreinstallEvent::Failed,
        PreinstallEvent::Succeeded,
    ]);
    assert!(fresh == vec![
        PreinstallAction::CheckStaging,
        PreinstallAction::CheckExisting,
        PreinstallAction::CopyTemplate,
        PreinstallAction::CopyIdentityFiles,
        PreinstallAction::RemovePartialCluster,
        PreinstallAction::Fail(PreinstallFailure::Copy),
    ]);
}

#[test]
fn deleted_shards_are_staged_under_a_tombstone_name() {
    assert_eq!(
        dst_admin_rust::level::delete_tombstone_name("12ab-cd-ef"),
        "__dst_admin_delete_12abcdef"
    );
}
