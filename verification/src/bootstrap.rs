//! Sync bootstrap arbitration: the one-time decision, at session
//! start, of whether local or remote state seeds the session. The
//! decisions are pure transitions from state and observed input to the
//! next state and the action the session runner must perform; the
//! runner performs the network work (subscribe, connect, the bounded
//! wait, the conversion, the push) and feeds the outcomes back in.

use vstd::prelude::*;
use crate::errors::SyncError;

verus! {

/// The bounded wait for the initial sync event, in seconds.
pub const BOOTSTRAP_TIMEOUT_SECS: u64 = 10;

/// What the collaboration options hold: where the remote provider
/// lives and which room the session joins.
pub struct CollabEditorOptions {
    pub server_url: String,
    pub room_name: String,
}

impl CollabEditorOptions {
    /// Options for one server and room.
    pub fn new(server_url: String, room_name: String) -> (r: CollabEditorOptions)
        ensures
            r.server_url@ == server_url@,
            r.room_name@ == room_name@,
    {
        CollabEditorOptions { server_url, room_name }
    }
}

/// The bootstrap states: connecting, awaiting the initial sync event,
/// and the three terminal outcomes.
#[derive(Clone, Copy, Debug, PartialEq, Eq, Structural)]
pub enum BootstrapState {
    Connecting,
    AwaitingInitialSync,
    LocalAuthoritative,
    RemoteAuthoritative,
    Failed,
}

/// A sync event observed on the provider's stream.
#[derive(Clone, Copy, Debug, PartialEq, Eq, Structural)]
pub enum SyncEvent {
    /// The remote finished its initial sync, and says whether it holds
    /// data.
    InitialSyncCompleted { has_data: bool },
    /// Any other event on the stream; the bootstrap ignores it.
    Other,
}

/// What the bootstrap observes while waiting.
#[derive(Clone, Copy, Debug, PartialEq, Eq, Structural)]
pub enum BootstrapInput {
    Event(SyncEvent),
    TimedOut,
}

/// What the session runner must do next.
#[derive(Clone, Copy, Debug, PartialEq, Eq, Structural)]
pub enum BootstrapAction {
    /// Subscribe to the sync stream, then connect, then wait.
    Connect,
    /// Keep waiting for the initial sync event, within the timeout.
    KeepWaiting,
    /// Convert the remote document into the local tree representation.
    ConvertRemote,
    /// Build a default local runtime and push its state to the remote.
    SeedRemote,
    /// Session construction fails with the given error.
    Fail(SyncError),
    /// The arbitration is over; run the session.
    Done,
}

/// Whether a state is terminal: once reached, no further arbitration
/// occurs.
pub open spec fn is_terminal(s: BootstrapState) -> bool {
    s == BootstrapState::LocalAuthoritative || s == BootstrapState::RemoteAuthoritative || s
        == BootstrapState::Failed
}

/// The transition on an observed input while waiting: a timeout fails
/// the session fatally; an initial-sync event with data starts the
/// remote conversion; one without data seeds the remote from a default
/// local runtime; anything else keeps waiting. Terminal states never
/// move again.
pub open spec fn step_spec(s: BootstrapState, i: BootstrapInput) -> (
    BootstrapState,
    BootstrapAction,
) {
    match s {
        BootstrapState::Connecting => (BootstrapState::AwaitingInitialSync, BootstrapAction::Connect),
        BootstrapState::AwaitingInitialSync => match i {
            BootstrapInput::TimedOut => (
                BootstrapState::Failed,
                BootstrapAction::Fail(SyncError::SyncTimeout),
            ),
            BootstrapInput::Event(SyncEvent::InitialSyncCompleted { has_data }) => if has_data {
                (BootstrapState::AwaitingInitialSync, BootstrapAction::ConvertRemote)
            } else {
                (BootstrapState::LocalAuthoritative, BootstrapAction::SeedRemote)
            },
            BootstrapInput::Event(SyncEvent::Other) => (
                BootstrapState::AwaitingInitialSync,
                BootstrapAction::KeepWaiting,
            ),
        },
        _ => (s, BootstrapAction::Done),
    }
}

/// The transition on the outcome of converting the remote document:
/// success makes the remote authoritative; failure is silently
/// recovered by seeding the remote from a default local runtime.
pub open spec fn conversion_spec(s: BootstrapState, ok: bool) -> (BootstrapState, BootstrapAction) {
    if s == BootstrapState::AwaitingInitialSync {
        if ok {
            (BootstrapState::RemoteAuthoritative, BootstrapAction::Done)
        } else {
            (BootstrapState::LocalAuthoritative, BootstrapAction::SeedRemote)
        }
    } else {
        (s, BootstrapAction::Done)
    }
}

/// The transition on the outcome of pushing the local seed state to
/// the remote: failure is fatal to session construction.
pub open spec fn push_spec(s: BootstrapState, ok: bool) -> (BootstrapState, BootstrapAction) {
    if s == BootstrapState::LocalAuthoritative && !ok {
        (BootstrapState::Failed, BootstrapAction::Fail(SyncError::SyncPushFailed))
    } else {
        (s, BootstrapAction::Done)
    }
}

/// Step the arbitration on an observed input.
pub fn bootstrap_step(s: &BootstrapState, i: &BootstrapInput) -> (r: (
    BootstrapState,
    BootstrapAction,
))
    ensures
        r == step_spec(*s, *i),
{
    match s {
        BootstrapState::Connecting => (
            BootstrapState::AwaitingInitialSync,
            BootstrapAction::Connect,
        ),
        BootstrapState::AwaitingInitialSync => match i {
            BootstrapInput::TimedOut => (
                BootstrapState::Failed,
                BootstrapAction::Fail(SyncError::SyncTimeout),
            ),
            BootstrapInput::Event(SyncEvent::InitialSyncCompleted { has_data }) => if *has_data {
                (BootstrapState::AwaitingInitialSync, BootstrapAction::ConvertRemote)
            } else {
                (BootstrapState::LocalAuthoritative, BootstrapAction::SeedRemote)
            },
            BootstrapInput::Event(SyncEvent::Other) => (
                BootstrapState::AwaitingInitialSync,
                BootstrapAction::KeepWaiting,
            ),
        },
        BootstrapState::LocalAuthoritative => (*s, BootstrapAction::Done),
        BootstrapState::RemoteAuthoritative => (*s, BootstrapAction::Done),
        BootstrapState::Failed => (*s, BootstrapAction::Done),
    }
}

/// Step the arbitration on the outcome of the remote conversion.
pub fn bootstrap_conversion(s: &BootstrapState, ok: bool) -> (r: (
    BootstrapState,
    BootstrapAction,
))
    ensures
        r == conversion_spec(*s, ok),
{
    if matches!(s, BootstrapState::AwaitingInitialSync) {
        if ok {
            (BootstrapState::RemoteAuthoritative, BootstrapAction::Done)
        } else {
            (BootstrapState::LocalAuthoritative, BootstrapAction::SeedRemote)
        }
    } else {
        (*s, BootstrapAction::Done)
    }
}

/// Step the arbitration on the outcome of the push to the remote.
pub fn bootstrap_push_result(s: &BootstrapState, ok: bool) -> (r: (
    BootstrapState,
    BootstrapAction,
))
    ensures
        r == push_spec(*s, ok),
{
    if matches!(s, BootstrapState::LocalAuthoritative) && !ok {
        (BootstrapState::Failed, BootstrapAction::Fail(SyncError::SyncPushFailed))
    } else {
        (*s, BootstrapAction::Done)
    }
}

/// Once a terminal state is reached, no input, conversion outcome or
/// push outcome moves the arbitration again.
pub proof fn lemma_terminal_stable(s: BootstrapState, i: BootstrapInput, ok: bool)
    requires
        is_terminal(s),
    ensures
        step_spec(s, i).0 == s,
        conversion_spec(s, ok).0 == s,
        s != BootstrapState::LocalAuthoritative ==> push_spec(s, ok).0 == s,
{
}

} // verus!
