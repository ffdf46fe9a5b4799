//! The control listener as a state machine: bind, then an accept loop that
//! races inbound connections against the shutdown event, and a
//! per-connection pipeline that reads one command, dispatches it and writes
//! one response. The loops themselves run outside the library; every
//! decision they take is fixed here.

use vstd::prelude::*;

verus! {

/// The listener's stable states.
#[derive(Debug, PartialEq, Eq, Structural, Clone, Copy)]
pub enum ListenerState {
    /// Binding the socket at the validated path.
    Binding,
    /// Bound, racing inbound connections against the shutdown event.
    Accepting,
    /// No further connection is accepted; in-flight connections drain on
    /// their own.
    Stopped,
}

/// What can wake the listener, whichever is ready first.
#[derive(Debug, PartialEq, Eq, Structural, Clone, Copy)]
pub enum ListenerEvent {
    /// The socket was bound at the validated path.
    BindSucceeded,
    /// The bind failed for a reason other than the address being in use —
    /// that case was already settled by the instance guard.
    BindFailed,
    /// The shutdown bus delivered the terminate event.
    ShutdownSignal,
    /// A client connected.
    IncomingConnection,
    /// Accepting a connection failed.
    AcceptFailure,
}

/// What the listener must do with the event.
#[derive(Debug, PartialEq, Eq, Structural, Clone, Copy)]
pub enum ListenerAction {
    /// Enter the accept loop.
    BeginAccepting,
    /// Startup-fatal: report the bind failure and exit the process.
    FailStartup,
    /// Hand the connection to an independent handler and keep accepting.
    HandleConnection,
    /// Log the failure; the listener and other connections are unaffected.
    LogAndContinue,
    /// Stop accepting; leave socket-file cleanup to the owning process.
    StopAccepting,
    /// Start no work.
    Ignore,
}

/// The listener's transition table.
pub open spec fn listener_next(s: ListenerState, e: ListenerEvent) -> (ListenerState,
    ListenerAction) {
    match s {
        ListenerState::Binding => match e {
            ListenerEvent::BindSucceeded => (ListenerState::Accepting, ListenerAction::BeginAccepting),
            ListenerEvent::BindFailed => (ListenerState::Stopped, ListenerAction::FailStartup),
            ListenerEvent::ShutdownSignal => (ListenerState::Stopped, ListenerAction::StopAccepting),
            _ => (ListenerState::Binding, ListenerAction::Ignore),
        },
        ListenerState::Accepting => match e {
            ListenerEvent::ShutdownSignal => (ListenerState::Stopped, ListenerAction::StopAccepting),
            ListenerEvent::IncomingConnection => (
                ListenerState::Accepting,
                ListenerAction::HandleConnection,
            ),
            ListenerEvent::AcceptFailure => (ListenerState::Accepting, ListenerAction::LogAndContinue),
            _ => (ListenerState::Accepting, ListenerAction::Ignore),
        },
        ListenerState::Stopped => (ListenerState::Stopped, ListenerAction::Ignore),
    }
}

/// Take one step of the listener.
pub fn listener_step(s: ListenerState, e: ListenerEvent) -> (r: (ListenerState, ListenerAction))
    ensures
        r == listener_next(s, e),
{
    match s {
        ListenerState::Binding => match e {
            ListenerEvent::BindSucceeded => (ListenerState::Accepting, ListenerAction::BeginAccepting),
            ListenerEvent::BindFailed => (ListenerState::Stopped, ListenerAction::FailStartup),
            ListenerEvent::ShutdownSignal => (ListenerState::Stopped, ListenerAction::StopAccepting),
            _ => (ListenerState::Binding, ListenerAction::Ignore),
        },
        ListenerState::Accepting => match e {
            ListenerEvent::ShutdownSignal => (ListenerState::Stopped, ListenerAction::StopAccepting),
            ListenerEvent::IncomingConnection => (
                ListenerState::Accepting,
                ListenerAction::HandleConnection,
            ),
            ListenerEvent::AcceptFailure => (ListenerState::Accepting, ListenerAction::LogAndContinue),
            _ => (ListenerState::Accepting, ListenerAction::Ignore),
        },
        ListenerState::Stopped => (ListenerState::Stopped, ListenerAction::Ignore),
    }
}

/// The shutdown event stops acceptance, from every state.
pub proof fn lemma_shutdown_stops(s: ListenerState)
    ensures
        listener_next(s, ListenerEvent::ShutdownSignal).0 == ListenerState::Stopped,
{
}

/// Once stopped, the listener stays stopped and starts no work, whatever
/// arrives.
pub proof fn lemma_stopped_is_final(e: ListenerEvent)
    ensures
        listener_next(ListenerState::Stopped, e).0 == ListenerState::Stopped,
        listener_next(ListenerState::Stopped, e).1 == ListenerAction::Ignore,
{
}

/// Idempotence of the terminate signal: a second shutdown event leaves the
/// listener where the first put it and causes no further action, so nothing
/// is shut down twice.
pub proof fn lemma_shutdown_idempotent(s: ListenerState)
    ensures
        listener_next(listener_next(s, ListenerEvent::ShutdownSignal).0, ListenerEvent::ShutdownSignal).0
            == listener_next(s, ListenerEvent::ShutdownSignal).0,
        listener_next(listener_next(s, ListenerEvent::ShutdownSignal).0, ListenerEvent::ShutdownSignal).1
            == ListenerAction::Ignore,
{
}

/// A bind failure is startup-fatal and nothing runs after it.
pub proof fn lemma_bind_failure_is_fatal()
    ensures
        listener_next(ListenerState::Binding, ListenerEvent::BindFailed) == (
            ListenerState::Stopped,
            ListenerAction::FailStartup,
        ),
{
}

/// One connection's phases: read one command, dispatch it, write one
/// response, close.
#[derive(Debug, PartialEq, Eq, Structural, Clone, Copy)]
pub enum ConnectionPhase {
    Reading,
    Dispatching,
    Responding,
    Closed,
}

/// Whether the work of the current phase succeeded or failed.
#[derive(Debug, PartialEq, Eq, Structural, Clone, Copy)]
pub enum PhaseOutcome {
    Succeeded,
    Failed,
}

/// The per-connection transition table: success walks the pipeline forward,
/// any failure aborts just this connection.
pub open spec fn connection_next(p: ConnectionPhase, o: PhaseOutcome) -> ConnectionPhase {
    match o {
        PhaseOutcome::Failed => ConnectionPhase::Closed,
        PhaseOutcome::Succeeded => match p {
            ConnectionPhase::Reading => ConnectionPhase::Dispatching,
            ConnectionPhase::Dispatching => ConnectionPhase::Responding,
            ConnectionPhase::Responding => ConnectionPhase::Closed,
            ConnectionPhase::Closed => ConnectionPhase::Closed,
        },
    }
}

/// Take one step of a connection's pipeline.
pub fn connection_step(p: ConnectionPhase, o: PhaseOutcome) -> (r: ConnectionPhase)
    ensures
        r == connection_next(p, o),
{
    match o {
        PhaseOutcome::Failed => ConnectionPhase::Closed,
        PhaseOutcome::Succeeded => match p {
            ConnectionPhase::Reading => ConnectionPhase::Dispatching,
            ConnectionPhase::Dispatching => ConnectionPhase::Responding,
            ConnectionPhase::Responding => ConnectionPhase::Closed,
            ConnectionPhase::Closed => ConnectionPhase::Closed,
        },
    }
}

/// Error containment: a failure in any phase closes this connection and
/// nothing else — there is no transition from a failure to more work.
pub proof fn lemma_failure_closes(p: ConnectionPhase)
    ensures
        connection_next(p, PhaseOutcome::Failed) == ConnectionPhase::Closed,
{
}

} // verus!
