//! The daemon lifecycle as an explicit state machine.
//!
//! The host transport (an event loop around a vhost-user or FUSE session)
//! performs the I/O; signal handlers and the API server enqueue events, and
//! this machine decides, from state and event alone, the next state and the
//! action the host must perform.  The host hands the outcome of the action
//! back as the next event.

use vstd::prelude::*;

use crate::{RafsError, RafsResult};

verus! {

/// Lifecycle states of the daemon.
#[derive(PartialEq, Eq, Structural, Clone, Copy, Debug)]
pub enum DaemonState {
    Init,
    Ready,
    Running,
    Upgrading,
    Interrupted,
    Stopped,
}

/// Events the host and the signal handlers enqueue.
#[derive(PartialEq, Eq, Structural, Clone, Copy, Debug)]
pub enum DaemonEvent {
    /// The filesystem backends are mounted and the service may start.
    Mount,
    /// Begin serving requests.
    Start,
    /// A takeover for live upgrade begins.
    Takeover,
    /// The takeover finished and serving resumes.
    Successful,
    /// A termination signal arrived.
    Stop,
    /// The event loop is asked to exit.
    Exit,
}

/// What the host must do after a transition.
#[derive(PartialEq, Eq, Structural, Clone, Copy, Debug)]
pub enum DaemonAction {
    /// Nothing to perform.
    Idle,
    /// Start the transport service.
    StartService,
    /// Restore the transport from the supervisor for a live upgrade.
    Restore,
    /// Disconnect the transport.
    Umount,
    /// Write the exit event so the event loop unblocks and terminates.
    TriggerExit,
    /// The event does not apply in this state.
    Reject,
}

/// The transition relation: from state and event to next state and action.
pub open spec fn spec_transition(s: DaemonState, e: DaemonEvent) -> (DaemonState, DaemonAction) {
    match (s, e) {
        (DaemonState::Init, DaemonEvent::Mount) => (DaemonState::Ready, DaemonAction::Idle),
        (DaemonState::Init, DaemonEvent::Takeover) => (
            DaemonState::Upgrading,
            DaemonAction::Restore,
        ),
        (DaemonState::Ready, DaemonEvent::Start) => (
            DaemonState::Running,
            DaemonAction::StartService,
        ),
        (DaemonState::Upgrading, DaemonEvent::Successful) => (
            DaemonState::Running,
            DaemonAction::StartService,
        ),
        (DaemonState::Running, DaemonEvent::Stop) => (
            DaemonState::Interrupted,
            DaemonAction::Umount,
        ),
        (DaemonState::Ready, DaemonEvent::Stop) => (
            DaemonState::Interrupted,
            DaemonAction::Umount,
        ),
        (DaemonState::Interrupted, DaemonEvent::Exit) => (
            DaemonState::Stopped,
            DaemonAction::TriggerExit,
        ),
        (DaemonState::Stopped, _) => (DaemonState::Stopped, DaemonAction::Idle),
        _ => (s, DaemonAction::Reject),
    }
}

/// Take one lifecycle step.  An event that does not apply in the current
/// state is rejected and the state kept; a stopped daemon ignores everything.
pub fn daemon_transition(s: DaemonState, e: DaemonEvent) -> (r: (DaemonState, DaemonAction))
    ensures
        r == spec_transition(s, e),
{
    match (s, e) {
        (DaemonState::Init, DaemonEvent::Mount) => (DaemonState::Ready, DaemonAction::Idle),
        (DaemonState::Init, DaemonEvent::Takeover) => (
            DaemonState::Upgrading,
            DaemonAction::Restore,
        ),
        (DaemonState::Ready, DaemonEvent::Start) => (
            DaemonState::Running,
            DaemonAction::StartService,
        ),
        (DaemonState::Upgrading, DaemonEvent::Successful) => (
            DaemonState::Running,
            DaemonAction::StartService,
        ),
        (DaemonState::Running, DaemonEvent::Stop) => (
            DaemonState::Interrupted,
            DaemonAction::Umount,
        ),
        (DaemonState::Ready, DaemonEvent::Stop) => (
            DaemonState::Interrupted,
            DaemonAction::Umount,
        ),
        (DaemonState::Interrupted, DaemonEvent::Exit) => (
            DaemonState::Stopped,
            DaemonAction::TriggerExit,
        ),
        (DaemonState::Stopped, _) => (DaemonState::Stopped, DaemonAction::Idle),
        _ => (s, DaemonAction::Reject),
    }
}

/// Once stopped, a daemon stays stopped whatever arrives.
pub proof fn lemma_stopped_is_final(e: DaemonEvent)
    ensures
        spec_transition(DaemonState::Stopped, e).0 == DaemonState::Stopped,
{
}

/// The virtio transport's queue index for a device event: the high-priority
/// queue listens on event zero, the request queue on event one; any other
/// event is unknown.
pub fn select_queue(device_event: u16) -> (r: RafsResult<usize>)
    ensures
        device_event == 0 ==> (r matches Ok(q) && q == 0),
        device_event == 1 ==> (r matches Ok(q) && q == 1),
        device_event >= 2 ==> r is Err,
{
    if device_event == 0 {
        Ok(0)
    } else if device_event == 1 {
        Ok(1)
    } else {
        Err(RafsError::Unsupported)
    }
}

} // verus!
