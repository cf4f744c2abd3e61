use garden_sea::signal::{
    console_ctrl_handler, kill_target, notice, relay, Notice, RelayAction, RelayEvent, RelayState,
    CTRL_BREAK_EVENT, CTRL_CLOSE_EVENT, CTRL_C_EVENT, CTRL_LOGOFF_EVENT, CTRL_SHUTDOWN_EVENT,
};

#[test]
fn control_codes_have_their_values() {
    assert_eq!(CTRL_C_EVENT, 0);
    assert_eq!(CTRL_BREAK_EVENT, 1);
    assert_eq!(CTRL_CLOSE_EVENT, 2);
    assert_eq!(CTRL_LOGOFF_EVENT, 5);
    assert_eq!(CTRL_SHUTDOWN_EVENT, 6);
}

#[test]
fn control_codes_are_read_as_notices() {
    assert_eq!(notice(0), Notice::Interrupt);
    assert_eq!(notice(1), Notice::Break);
    assert_eq!(notice(2), Notice::Close);
    assert_eq!(notice(5), Notice::Logoff);
    assert_eq!(notice(6), Notice::Shutdown);
    assert_eq!(notice(3), Notice::Other);
    assert_eq!(notice(4), Notice::Other);
    assert_eq!(notice(7), Notice::Other);
    assert_eq!(notice(u32::MAX), Notice::Other);
}

#[test]
fn handler_takes_the_codes_that_ask_to_end() {
    for code in [0, 1, 2, 5, 6] {
        assert!(console_ctrl_handler(code));
    }
    for code in [3, 4, 7, 8, 100, u32::MAX] {
        assert!(!console_ctrl_handler(code));
    }
}

#[test]
fn installation_arms_the_relay() {
    assert_eq!(
        relay(RelayState::Uninstalled, RelayEvent::Installed { child: 4711 }),
        (RelayState::Installed { child: 4711 }, RelayAction::Nothing)
    );
}

#[test]
fn failed_installation_gives_the_launch_up() {
    assert_eq!(
        relay(RelayState::Uninstalled, RelayEvent::InstallFailed),
        (RelayState::Uninstalled, RelayAction::Abort)
    );
}

#[test]
fn interrupt_is_relayed_to_the_child() {
    let (state, _) = relay(RelayState::Uninstalled, RelayEvent::Installed { child: 4711 });
    let (after, action) = relay(state, RelayEvent::Notified { notice: Notice::Interrupt });
    assert_eq!(action, RelayAction::Forward { child: 4711 });
    assert_eq!(after, RelayState::Installed { child: 4711 });
}

#[test]
fn every_notice_to_end_is_relayed_once() {
    let mut state = RelayState::Installed { child: 7 };
    let notices = [
        Notice::Interrupt,
        Notice::Other,
        Notice::Interrupt,
        Notice::Close,
        Notice::Break,
        Notice::Other,
        Notice::Logoff,
        Notice::Shutdown,
    ];
    let mut forwarded = Vec::new();
    for notice in notices {
        let (next, action) = relay(state, RelayEvent::Notified { notice });
        state = next;
        match action {
            RelayAction::Forward { child } => forwarded.push(child),
            RelayAction::Nothing => {}
            RelayAction::Abort => panic!("the relay gave up"),
        }
        assert_eq!(state, RelayState::Installed { child: 7 });
    }
    assert_eq!(forwarded, vec![7; 6]);
}

#[test]
fn notice_before_installation_is_relayed_to_nobody() {
    assert_eq!(
        relay(RelayState::Uninstalled, RelayEvent::Notified { notice: Notice::Interrupt }),
        (RelayState::Uninstalled, RelayAction::Nothing)
    );
}

#[test]
fn relay_is_installed_once() {
    let state = RelayState::Installed { child: 7 };
    assert_eq!(relay(state, RelayEvent::Installed { child: 8 }), (state, RelayAction::Nothing));
    assert_eq!(relay(state, RelayEvent::InstallFailed), (state, RelayAction::Nothing));
}

#[test]
fn kill_target_is_the_child_itself() {
    assert_eq!(kill_target(1), Some(1));
    assert_eq!(kill_target(4711), Some(4711));
    assert_eq!(kill_target(i32::MAX as u32), Some(i32::MAX));
}

#[test]
fn kill_target_never_addresses_a_group() {
    assert_eq!(kill_target(0), None);
    assert_eq!(kill_target(i32::MAX as u32 + 1), None);
    assert_eq!(kill_target(u32::MAX), None);
}
