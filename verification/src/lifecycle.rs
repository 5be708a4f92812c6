//! The lifecycle of the processor as a state machine: what each input does
//! to the state, and what it asks the caller to carry out.

use vstd::prelude::*;

verus! {

#[derive(Clone, Copy, Debug, PartialEq, Eq, Structural)]
pub enum LifecycleState {
    /// Nothing subscribed, the index empty.
    Idle,
    /// Started; waiting for the transport.
    Connecting,
    /// Transport ready; addresses are being subscribed and the index filled.
    Syncing,
    /// Steady state: notifications are applied as they come.
    Active,
    /// Transport lost; the index is kept until the next resync.
    Reconnecting,
    /// Stopped for good.
    Stopped,
}

#[derive(Clone, Copy, Debug, PartialEq, Eq, Structural)]
pub enum LifecycleInput {
    Start,
    Stop,
    TransportReady,
    TransportFailed,
    TransportLost,
    SubscriptionFailed,
    SyncCompleted,
}

#[derive(Clone, Copy, Debug, PartialEq, Eq, Structural)]
pub enum LifecycleError {
    TransportUnavailable,
    SubscriptionFailed,
}

/// What the caller carries out after a transition.
#[derive(Clone, Copy, Debug, PartialEq, Eq, Structural)]
pub enum LifecycleAction {
    Nothing,
    /// Wait until the transport is ready.
    AwaitTransport,
    /// Subscribe the addresses and fetch their outputs into the empty index.
    Subscribe,
    /// Fetch the authoritative outputs and reconcile the kept index with them.
    Reconcile,
    /// Cancel the pending wait and drop every subscription.
    TearDown,
    /// Report the failed start.
    Fail(LifecycleError),
}

#[derive(Clone, Copy, Debug, PartialEq, Eq, Structural)]
pub struct Transition {
    pub state: LifecycleState,
    pub action: LifecycleAction,
}

/// The transition table.
pub open spec fn next(state: LifecycleState, input: LifecycleInput) -> Transition {
    match (state, input) {
        (LifecycleState::Stopped, _) => Transition {
            state: LifecycleState::Stopped,
            action: LifecycleAction::Nothing,
        },
        (LifecycleState::Idle, LifecycleInput::Start) => Transition {
            state: LifecycleState::Connecting,
            action: LifecycleAction::AwaitTransport,
        },
        (LifecycleState::Idle, LifecycleInput::Stop) => Transition {
            state: LifecycleState::Stopped,
            action: LifecycleAction::Nothing,
        },
        (_, LifecycleInput::Stop) => Transition {
            state: LifecycleState::Stopped,
            action: LifecycleAction::TearDown,
        },
        (LifecycleState::Connecting, LifecycleInput::TransportReady) => Transition {
            state: LifecycleState::Syncing,
            action: LifecycleAction::Subscribe,
        },
        (LifecycleState::Connecting, LifecycleInput::TransportFailed) => Transition {
            state: LifecycleState::Idle,
            action: LifecycleAction::Fail(LifecycleError::TransportUnavailable),
        },
        (LifecycleState::Syncing, LifecycleInput::SyncCompleted) => Transition {
            state: LifecycleState::Active,
            action: LifecycleAction::Nothing,
        },
        (LifecycleState::Syncing, LifecycleInput::SubscriptionFailed) => Transition {
            state: LifecycleState::Idle,
            action: LifecycleAction::Fail(LifecycleError::SubscriptionFailed),
        },
        (LifecycleState::Syncing, LifecycleInput::TransportLost) => Transition {
            state: LifecycleState::Idle,
            action: LifecycleAction::Fail(LifecycleError::TransportUnavailable),
        },
        (LifecycleState::Active, LifecycleInput::TransportLost) => Transition {
            state: LifecycleState::Reconnecting,
            action: LifecycleAction::AwaitTransport,
        },
        (LifecycleState::Reconnecting, LifecycleInput::TransportReady) => Transition {
            state: LifecycleState::Reconnecting,
            action: LifecycleAction::Reconcile,
        },
        (LifecycleState::Reconnecting, LifecycleInput::SyncCompleted) => Transition {
            state: LifecycleState::Active,
            action: LifecycleAction::Nothing,
        },
        _ => Transition { state, action: LifecycleAction::Nothing },
    }
}

/// Notifications change the index in the steady state only.
pub open spec fn accepts_notifications(state: LifecycleState) -> bool {
    state == LifecycleState::Active
}

/// Started, and not stopped.
pub open spec fn is_started(state: LifecycleState) -> bool {
    state != LifecycleState::Idle && state != LifecycleState::Stopped
}

/// Takes one step of the state machine.
pub fn step(state: LifecycleState, input: LifecycleInput) -> (transition: Transition)
    ensures
        transition == next(state, input),
{
    match (state, input) {
        (LifecycleState::Stopped, _) => Transition {
            state: LifecycleState::Stopped,
            action: LifecycleAction::Nothing,
        },
        (LifecycleState::Idle, LifecycleInput::Start) => Transition {
            state: LifecycleState::Connecting,
            action: LifecycleAction::AwaitTransport,
        },
        (LifecycleState::Idle, LifecycleInput::Stop) => Transition {
            state: LifecycleState::Stopped,
            action: LifecycleAction::Nothing,
        },
        (_, LifecycleInput::Stop) => Transition {
            state: LifecycleState::Stopped,
            action: LifecycleAction::TearDown,
        },
        (LifecycleState::Connecting, LifecycleInput::TransportReady) => Transition {
            state: LifecycleState::Syncing,
            action: LifecycleAction::Subscribe,
        },
        (LifecycleState::Connecting, LifecycleInput::TransportFailed) => Transition {
            state: LifecycleState::Idle,
            action: LifecycleAction::Fail(LifecycleError::TransportUnavailable),
        },
        (LifecycleState::Syncing, LifecycleInput::SyncCompleted) => Transition {
            state: LifecycleState::Active,
            action: LifecycleAction::Nothing,
        },
        (LifecycleState::Syncing, LifecycleInput::SubscriptionFailed) => Transition {
            state: LifecycleState::Idle,
            action: LifecycleAction::Fail(LifecycleError::SubscriptionFailed),
        },
        (LifecycleState::Syncing, LifecycleInput::TransportLost) => Transition {
            state: LifecycleState::Idle,
            action: LifecycleAction::Fail(LifecycleError::TransportUnavailable),
        },
        (LifecycleState::Active, LifecycleInput::TransportLost) => Transition {
            state: LifecycleState::Reconnecting,
            action: LifecycleAction::AwaitTransport,
        },
        (LifecycleState::Reconnecting, LifecycleInput::TransportReady) => Transition {
            state: LifecycleState::Reconnecting,
            action: LifecycleAction::Reconcile,
        },
        (LifecycleState::Reconnecting, LifecycleInput::SyncCompleted) => Transition {
            state: LifecycleState::Active,
            action: LifecycleAction::Nothing,
        },
        _ => Transition { state, action: LifecycleAction::Nothing },
    }
}

/// Whether notifications are applied in this state.
pub fn applies_notifications(state: LifecycleState) -> (applies: bool)
    ensures
        applies == accepts_notifications(state),
{
    state == LifecycleState::Active
}

/// The processor counts as active only while the transport reports a
/// connection, the subscriptions stand and the processor runs. A transport
/// that cannot be asked counts as not connected.
pub fn is_active(transport_connected: Option<bool>, subscribed: bool, running: bool) -> (active:
    bool)
    ensures
        active == (transport_connected == Some(true) && subscribed && running),
{
    let connected = match transport_connected {
        Some(connected) => connected,
        None => false,
    };
    connected && subscribed && running
}

/// Starting what is started changes nothing and asks for nothing, so no
/// subscription is made twice.
pub proof fn lemma_start_is_idempotent(state: LifecycleState)
    ensures
        next(next(state, LifecycleInput::Start).state, LifecycleInput::Start) == (Transition {
            state: next(state, LifecycleInput::Start).state,
            action: LifecycleAction::Nothing,
        }),
        is_started(state) ==> next(state, LifecycleInput::Start) == (Transition {
            state,
            action: LifecycleAction::Nothing,
        }),
{
}

/// Stopping always ends in the stopped state, and stopping what is stopped
/// asks for nothing.
pub proof fn lemma_stop_is_idempotent(state: LifecycleState)
    ensures
        next(state, LifecycleInput::Stop).state == LifecycleState::Stopped,
        next(next(state, LifecycleInput::Stop).state, LifecycleInput::Stop) == (Transition {
            state: LifecycleState::Stopped,
            action: LifecycleAction::Nothing,
        }),
{
}

/// Nothing leaves the stopped state, and nothing is asked for in it.
pub proof fn lemma_stopped_is_terminal(input: LifecycleInput)
    ensures
        next(LifecycleState::Stopped, input) == (Transition {
            state: LifecycleState::Stopped,
            action: LifecycleAction::Nothing,
        }),
{
}

/// Only a lost transport leaves the steady state, and it leads to
/// reconnecting; only a completed resync leads back.
pub proof fn lemma_active_and_reconnecting_cycle(input: LifecycleInput)
    ensures
        next(LifecycleState::Active, input).state == match input {
            LifecycleInput::Stop => LifecycleState::Stopped,
            LifecycleInput::TransportLost => LifecycleState::Reconnecting,
            _ => LifecycleState::Active,
        },
        next(LifecycleState::Reconnecting, input).state == match input {
            LifecycleInput::Stop => LifecycleState::Stopped,
            LifecycleInput::SyncCompleted => LifecycleState::Active,
            _ => LifecycleState::Reconnecting,
        },
{
}

} // verus!
