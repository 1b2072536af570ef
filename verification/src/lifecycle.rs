//! Server lifecycle state machine.

use vstd::prelude::*;
use crate::error::CoreError;

verus! {

#[derive(Debug, Clone, Copy, PartialEq, Eq, Structural)]
pub enum ServerStatus {
    Offline,
    Starting,
    Online,
    Stopping,
    Failed,
}

#[derive(Debug, Clone, Copy, PartialEq, Eq, Structural)]
pub enum LifecycleCommand {
    Start,
    Ready,
    Stop,
    Stopped,
    Restart,
    Fail,
}

/// The transition table of the server lifecycle: `None` means the command is refused in the
/// given state.
pub open spec fn lifecycle_transition(state: ServerStatus, command: LifecycleCommand) -> Option<ServerStatus> {
    match (state, command) {
        (_, LifecycleCommand::Fail) => Some(ServerStatus::Failed),
        (ServerStatus::Offline, LifecycleCommand::Start) => Some(ServerStatus::Starting),
        (ServerStatus::Failed, LifecycleCommand::Start) => Some(ServerStatus::Starting),
        (ServerStatus::Starting, LifecycleCommand::Ready) => Some(ServerStatus::Online),
        (ServerStatus::Online, LifecycleCommand::Stop) => Some(ServerStatus::Stopping),
        (ServerStatus::Stopping, LifecycleCommand::Stopped) => Some(ServerStatus::Offline),
        (ServerStatus::Online, LifecycleCommand::Restart) => Some(ServerStatus::Stopping),
        _ => None,
    }
}

impl ServerStatus {
    pub fn as_str(self) -> (r: &'static str)
        ensures
            r@ == (match self {
                ServerStatus::Offline => "offline"@,
                ServerStatus::Starting => "starting"@,
                ServerStatus::Online => "online"@,
                ServerStatus::Stopping => "stopping"@,
                ServerStatus::Failed => "failed"@,
            }),
    {
        match self {
            ServerStatus::Offline => "offline",
            ServerStatus::Starting => "starting",
            ServerStatus::Online => "online",
            ServerStatus::Stopping => "stopping",
            ServerStatus::Failed => "failed",
        }
    }

    /// Applies one lifecycle command; refused transitions report the state and command.
    pub fn apply(self, command: LifecycleCommand) -> (r: Result<ServerStatus, CoreError>)
        ensures
            match lifecycle_transition(self, command) {
                Some(next) => r == Ok::<ServerStatus, CoreError>(next),
                None => r == Err::<ServerStatus, CoreError>(CoreError::InvalidTransition { state: self, command }),
            },
    {
        match (self, command) {
            (_, LifecycleCommand::Fail) => Ok(ServerStatus::Failed),
            (ServerStatus::Offline, LifecycleCommand::Start) => Ok(ServerStatus::Starting),
            (ServerStatus::Failed, LifecycleCommand::Start) => Ok(ServerStatus::Starting),
            (ServerStatus::Starting, LifecycleCommand::Ready) => Ok(ServerStatus::Online),
            (ServerStatus::Online, LifecycleCommand::Stop) => Ok(ServerStatus::Stopping),
            (ServerStatus::Stopping, LifecycleCommand::Stopped) => Ok(ServerStatus::Offline),
            (ServerStatus::Online, LifecycleCommand::Restart) => Ok(ServerStatus::Stopping),
            _ => Err(CoreError::InvalidTransition { state: self, command }),
        }
    }
}

impl LifecycleCommand {
    pub fn as_str(self) -> (r: &'static str)
        ensures
            r@ == (match self {
                LifecycleCommand::Start => "start"@,
                LifecycleCommand::Ready => "ready"@,
                LifecycleCommand::Stop => "stop"@,
                LifecycleCommand::Stopped => "stopped"@,
                LifecycleCommand::Restart => "restart"@,
                LifecycleCommand::Fail => "fail"@,
            }),
    {
        match self {
            LifecycleCommand::Start => "start",
            LifecycleCommand::Ready => "ready",
            LifecycleCommand::Stop => "stop",
            LifecycleCommand::Stopped => "stopped",
            LifecycleCommand::Restart => "restart",
            LifecycleCommand::Fail => "fail",
        }
    }
}

/// A failure can be recorded from every lifecycle state, and a failed server can always be
/// started again.
pub proof fn lemma_fail_is_always_accepted_and_restartable(state: ServerStatus)
    ensures
        lifecycle_transition(state, LifecycleCommand::Fail) == Some(ServerStatus::Failed),
        lifecycle_transition(ServerStatus::Failed, LifecycleCommand::Start) == Some(ServerStatus::Starting),
{
}

/// Starting, readying, stopping and confirming the stop brings an offline server back offline.
pub proof fn lemma_full_cycle_returns_offline()
    ensures
        lifecycle_transition(ServerStatus::Offline, LifecycleCommand::Start) == Some(ServerStatus::Starting),
        lifecycle_transition(ServerStatus::Starting, LifecycleCommand::Ready) == Some(ServerStatus::Online),
        lifecycle_transition(ServerStatus::Online, LifecycleCommand::Stop) == Some(ServerStatus::Stopping),
        lifecycle_transition(ServerStatus::Stopping, LifecycleCommand::Stopped) == Some(ServerStatus::Offline),
{
}

} // verus!
