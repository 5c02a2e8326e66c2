use sglaz::upgrade::{self_upgrade, Place, UpgradeStep};

#[test]
fn unix_replaces_the_binary_by_a_rename() {
    assert_eq!(
        self_upgrade(true, false),
        vec![
            UpgradeStep::Download,
            UpgradeStep::Write(Place::Staged),
            UpgradeStep::MakeExecutable(Place::Staged),
            UpgradeStep::Move { from: Place::Staged, to: Place::Current },
            UpgradeStep::Exit,
        ]
    );
}

#[test]
fn windows_moves_the_running_binary_aside() {
    assert_eq!(
        self_upgrade(false, true),
        vec![
            UpgradeStep::Download,
            UpgradeStep::Write(Place::Staged),
            UpgradeStep::Discard(Place::Aside),
            UpgradeStep::Move { from: Place::Current, to: Place::Aside },
            UpgradeStep::Move { from: Place::Staged, to: Place::Current },
            UpgradeStep::Launch(Place::Current),
            UpgradeStep::Exit,
        ]
    );
}

#[test]
fn other_hosts_only_stage_the_binary() {
    assert_eq!(
        self_upgrade(false, false),
        vec![UpgradeStep::Download, UpgradeStep::Write(Place::Staged), UpgradeStep::Exit]
    );
}

#[test]
fn places_have_extensions() {
    assert_eq!(Place::Current.extension(), None);
    assert_eq!(Place::Staged.extension(), Some("new".to_string()));
    assert_eq!(Place::Aside.extension(), Some("old".to_string()));
}

#[test]
fn only_discarding_may_fail() {
    for windows in [false, true] {
        for step in self_upgrade(!windows, windows) {
            assert_eq!(step.may_fail(), step == UpgradeStep::Discard(Place::Aside));
        }
    }
}
