//! The interrupt relay: what the launcher does with a termination notice
//! while the runtime is its child.
//!
//! The relay is a state machine. Once installed for a child it answers every
//! termination notice by asking for one interrupt to be sent to that child,
//! and stays installed: the launcher itself lives on until the child is gone.

use vstd::prelude::*;

verus! {

/// Console control code: the interrupt key combination was pressed.
pub const CTRL_C_EVENT: u32 = 0;

/// Console control code: the break key combination was pressed.
pub const CTRL_BREAK_EVENT: u32 = 1;

/// Console control code: the console is being closed.
pub const CTRL_CLOSE_EVENT: u32 = 2;

/// Console control code: the user is logging off.
pub const CTRL_LOGOFF_EVENT: u32 = 5;

/// Console control code: the system is shutting down.
pub const CTRL_SHUTDOWN_EVENT: u32 = 6;

/// A notice that the launcher received from the system.
#[derive(Debug, Copy, Clone, PartialEq, Eq, Structural)]
pub enum Notice {
    Interrupt,
    Break,
    Close,
    Logoff,
    Shutdown,
    /// Any notice that does not ask the launcher to end.
    Other,
}

/// The notice that a console control code stands for.
pub open spec fn notice_of(ctrl_type: u32) -> Notice {
    if ctrl_type == CTRL_C_EVENT {
        Notice::Interrupt
    } else if ctrl_type == CTRL_BREAK_EVENT {
        Notice::Break
    } else if ctrl_type == CTRL_CLOSE_EVENT {
        Notice::Close
    } else if ctrl_type == CTRL_LOGOFF_EVENT {
        Notice::Logoff
    } else if ctrl_type == CTRL_SHUTDOWN_EVENT {
        Notice::Shutdown
    } else {
        Notice::Other
    }
}

/// Whether a notice asks the launcher to end. All such notices are treated
/// alike.
pub open spec fn asks_to_end(notice: Notice) -> bool {
    notice != Notice::Other
}

/// The state of the relay.
#[derive(Debug, Copy, Clone, PartialEq, Eq, Structural)]
pub enum RelayState {
    /// No handler is installed.
    Uninstalled,
    /// The handler is installed and relays to `child`.
    Installed { child: u32 },
}

/// What happened to the relay.
#[derive(Debug, Copy, Clone, PartialEq, Eq, Structural)]
pub enum RelayEvent {
    /// The handler was installed for `child`.
    Installed { child: u32 },
    /// The handler could not be installed.
    InstallFailed,
    /// The system sent a notice.
    Notified { notice: Notice },
}

/// What the relay asks for.
#[derive(Debug, Copy, Clone, PartialEq, Eq, Structural)]
pub enum RelayAction {
    /// Nothing is to be done.
    Nothing,
    /// Send one interrupt to the process `child`, and to no other.
    Forward { child: u32 },
    /// Give the launch up: without a relay an interrupt would never reach the
    /// child.
    Abort,
}

/// The relay's answer to `event` in `state`.
pub open spec fn relay_next(state: RelayState, event: RelayEvent) -> (RelayState, RelayAction) {
    match (state, event) {
        (RelayState::Uninstalled, RelayEvent::Installed { child }) => (
            RelayState::Installed { child },
            RelayAction::Nothing,
        ),
        (RelayState::Uninstalled, RelayEvent::InstallFailed) => (
            RelayState::Uninstalled,
            RelayAction::Abort,
        ),
        (RelayState::Installed { child }, RelayEvent::Notified { notice }) => (
            state,
            if asks_to_end(notice) {
                RelayAction::Forward { child }
            } else {
                RelayAction::Nothing
            },
        ),
        _ => (state, RelayAction::Nothing),
    }
}

/// The process that an interrupt for `child` is sent to with `kill`: the
/// child's identifier as a positive signed number. There is none where the
/// number would be zero or negative, which would address a group of
/// processes.
pub open spec fn kill_target_of(child: u32) -> Option<i32> {
    if 0 < child <= i32::MAX {
        Some(child as i32)
    } else {
        None
    }
}

/// Reads a console control code as a notice.
pub fn notice(ctrl_type: u32) -> (notice: Notice)
    ensures
        notice == notice_of(ctrl_type),
{
    if ctrl_type == CTRL_C_EVENT {
        Notice::Interrupt
    } else if ctrl_type == CTRL_BREAK_EVENT {
        Notice::Break
    } else if ctrl_type == CTRL_CLOSE_EVENT {
        Notice::Close
    } else if ctrl_type == CTRL_LOGOFF_EVENT {
        Notice::Logoff
    } else if ctrl_type == CTRL_SHUTDOWN_EVENT {
        Notice::Shutdown
    } else {
        Notice::Other
    }
}

/// Whether the launcher's console handler takes a control code as handled:
/// it does so for the codes that ask the launcher to end, which are relayed,
/// and leaves every other code to the next handler.
pub fn console_ctrl_handler(ctrl_type: u32) -> (handled: bool)
    ensures
        handled == asks_to_end(notice_of(ctrl_type)),
{
    match notice(ctrl_type) {
        Notice::Other => false,
        _ => true,
    }
}

/// The relay's answer to `event` in `state`: the state it moves to and what
/// it asks for.
pub fn relay(state: RelayState, event: RelayEvent) -> (answer: (RelayState, RelayAction))
    ensures
        answer == relay_next(state, event),
{
    match (state, event) {
        (RelayState::Uninstalled, RelayEvent::Installed { child }) => (
            RelayState::Installed { child },
            RelayAction::Nothing,
        ),
        (RelayState::Uninstalled, RelayEvent::InstallFailed) => (
            RelayState::Uninstalled,
            RelayAction::Abort,
        ),
        (RelayState::Installed { child }, RelayEvent::Notified { notice }) => {
            match notice {
                Notice::Other => (state, RelayAction::Nothing),
                _ => (state, RelayAction::Forward { child }),
            }
        },
        _ => (state, RelayAction::Nothing),
    }
}

/// The process identifier to hand to `kill` so that the interrupt reaches
/// `child` and no other process.
pub fn kill_target(child: u32) -> (target: Option<i32>)
    ensures
        target == kill_target_of(child),
{
    if 0 < child && child <= 0x7fff_ffff {
        Some(child as i32)
    } else {
        None
    }
}

/// The state of the relay after it has answered `events` in order.
pub open spec fn relay_state_after(state: RelayState, events: Seq<RelayEvent>) -> RelayState
    decreases events.len(),
{
    if events.len() == 0 {
        state
    } else {
        relay_next(relay_state_after(state, events.drop_last()), events.last()).0
    }
}

/// The children that the relay asked to interrupt while it answered `events`
/// in order, one entry for each interrupt.
pub open spec fn relayed(state: RelayState, events: Seq<RelayEvent>) -> Seq<u32>
    decreases events.len(),
{
    if events.len() == 0 {
        Seq::empty()
    } else {
        let earlier = relayed(state, events.drop_last());
        match relay_next(relay_state_after(state, events.drop_last()), events.last()).1 {
            RelayAction::Forward { child } => earlier.push(child),
            _ => earlier,
        }
    }
}

/// The notices among `events` that ask the launcher to end.
pub open spec fn notices_to_end(events: Seq<RelayEvent>) -> Seq<RelayEvent> {
    events.filter(
        |event: RelayEvent|
            event matches RelayEvent::Notified { notice } && asks_to_end(notice),
    )
}

/// Once the relay is installed for a child, whatever happens next, it stays
/// installed for that child, and it asks for exactly one interrupt for each
/// notice that asks the launcher to end, each aimed at that child. It never
/// asks to give up, so the launcher lives on to see the child end.
pub proof fn lemma_relay_forwards_every_notice(child: u32, events: Seq<RelayEvent>)
    ensures
        relay_state_after(RelayState::Installed { child }, events) == (RelayState::Installed {
            child,
        }),
        relayed(RelayState::Installed { child }, events).len() == notices_to_end(events).len(),
        forall|i: int|
            0 <= i < relayed(RelayState::Installed { child }, events).len() ==> #[trigger] relayed(
                RelayState::Installed { child },
                events,
            )[i] == child,
        forall|i: int|
            0 <= i < events.len() ==> relay_next(
                relay_state_after(RelayState::Installed { child }, events.take(i)),
                #[trigger] events[i],
            ).1 != RelayAction::Abort,
    decreases events.len(),
{
    reveal(Seq::filter);
    if events.len() > 0 {
        let earlier = events.drop_last();
        lemma_relay_forwards_every_notice(child, earlier);
        assert forall|i: int| 0 <= i < events.len() implies relay_next(
            relay_state_after(RelayState::Installed { child }, events.take(i)),
            #[trigger] events[i],
        ).1 != RelayAction::Abort by {
            if i < events.len() - 1 {
                assert(events.take(i) =~= earlier.take(i));
                assert(events[i] == earlier[i]);
            } else {
                assert(events.take(i) =~= earlier);
            }
        }
    }
}

/// A notice that reaches the relay before it is installed is relayed to
/// nobody.
pub proof fn lemma_relay_needs_installation(notice: Notice)
    ensures
        relay_next(RelayState::Uninstalled, RelayEvent::Notified { notice }) == (
            RelayState::Uninstalled,
            RelayAction::Nothing,
        ),
{
}

/// The interrupt for a child is addressed to that child alone: the target
/// handed to `kill` is the child's own identifier, never zero or a negative
/// number, which would address a group.
pub proof fn lemma_kill_target_is_the_child(child: u32)
    ensures
        kill_target_of(child) matches Some(target) ==> target > 0 && target == child,
        kill_target_of(child) is None <==> child == 0 || child > i32::MAX,
{
}

} // verus!
