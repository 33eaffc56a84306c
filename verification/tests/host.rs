use event_modifiers::host::{HostAction, Installation};

#[test]
fn a_new_installation_is_not_installed() {
    let installation = Installation::new();
    assert!(!installation.installed());
}

#[test]
fn first_registration_asks_for_the_whole_plan_in_order() {
    let mut installation = Installation::new();
    let actions = installation.install();
    assert_eq!(
        actions,
        vec![
            HostAction::DeclareInputChannel,
            HostAction::DeclareOutputChannel,
            HostAction::InstallGatedDriver,
        ]
    );
    assert!(installation.installed());
}

#[test]
fn registering_again_asks_for_nothing() {
    let mut installation = Installation::new();
    installation.install();
    assert_eq!(installation.install(), vec![]);
    assert_eq!(installation.install(), vec![]);
    assert!(installation.installed());
}
