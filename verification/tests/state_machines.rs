//! The accept loop's state machine, the per-connection pipeline, the
//! instance guard and the token generator.

use pose::guard::{
    SocketProbe, StartDecision, already_active_message, guard_decision, refuse_exit_code,
};
use pose::listener::{
    ConnectionPhase, ListenerAction, ListenerEvent, ListenerState, connection_step, listener_step,
};
use pose::listener::PhaseOutcome;
use pose::token::generate_token;

#[test]
fn bind_transitions() {
    assert_eq!(
        listener_step(ListenerState::Binding, ListenerEvent::BindSucceeded),
        (ListenerState::Accepting, ListenerAction::BeginAccepting)
    );
    assert_eq!(
        listener_step(ListenerState::Binding, ListenerEvent::BindFailed),
        (ListenerState::Stopped, ListenerAction::FailStartup)
    );
    assert_eq!(
        listener_step(ListenerState::Binding, ListenerEvent::ShutdownSignal),
        (ListenerState::Stopped, ListenerAction::StopAccepting)
    );
}

#[test]
fn accept_loop_transitions() {
    assert_eq!(
        listener_step(ListenerState::Accepting, ListenerEvent::IncomingConnection),
        (ListenerState::Accepting, ListenerAction::HandleConnection)
    );
    assert_eq!(
        listener_step(ListenerState::Accepting, ListenerEvent::AcceptFailure),
        (ListenerState::Accepting, ListenerAction::LogAndContinue)
    );
    assert_eq!(
        listener_step(ListenerState::Accepting, ListenerEvent::ShutdownSignal),
        (ListenerState::Stopped, ListenerAction::StopAccepting)
    );
}

#[test]
fn second_shutdown_is_a_no_op() {
    let (stopped, first) = listener_step(ListenerState::Accepting, ListenerEvent::ShutdownSignal);
    assert_eq!(first, ListenerAction::StopAccepting);
    let (again, second) = listener_step(stopped, ListenerEvent::ShutdownSignal);
    assert_eq!(again, ListenerState::Stopped);
    assert_eq!(second, ListenerAction::Ignore);
}

#[test]
fn stopped_listener_starts_no_work() {
    for e in [
        ListenerEvent::BindSucceeded,
        ListenerEvent::BindFailed,
        ListenerEvent::ShutdownSignal,
        ListenerEvent::IncomingConnection,
        ListenerEvent::AcceptFailure,
    ] {
        assert_eq!(
            listener_step(ListenerState::Stopped, e),
            (ListenerState::Stopped, ListenerAction::Ignore)
        );
    }
}

#[test]
fn connection_pipeline_walks_forward() {
    let p = connection_step(ConnectionPhase::Reading, PhaseOutcome::Succeeded);
    assert_eq!(p, ConnectionPhase::Dispatching);
    let p = connection_step(p, PhaseOutcome::Succeeded);
    assert_eq!(p, ConnectionPhase::Responding);
    let p = connection_step(p, PhaseOutcome::Succeeded);
    assert_eq!(p, ConnectionPhase::Closed);
    assert_eq!(connection_step(p, PhaseOutcome::Succeeded), ConnectionPhase::Closed);
}

#[test]
fn any_failure_closes_the_connection() {
    for p in [
        ConnectionPhase::Reading,
        ConnectionPhase::Dispatching,
        ConnectionPhase::Responding,
        ConnectionPhase::Closed,
    ] {
        assert_eq!(connection_step(p, PhaseOutcome::Failed), ConnectionPhase::Closed);
    }
}

#[test]
fn guard_decisions() {
    assert_eq!(guard_decision(SocketProbe::Live), StartDecision::RefuseStart);
    assert_eq!(guard_decision(SocketProbe::StaleFile), StartDecision::RemoveStaleThenBind);
    assert_eq!(guard_decision(SocketProbe::Missing), StartDecision::BindDirectly);
}

#[test]
fn refused_start_exits_one_with_diagnostic() {
    assert_eq!(refuse_exit_code(), 1);
    assert_eq!(already_active_message(), "[Error] Server is already active!");
}

#[test]
fn tokens_are_fresh_random_bytes() {
    let a = generate_token();
    let b = generate_token();
    assert_eq!(a.len(), 64);
    assert_ne!(*a, [0u8; 64]);
    assert_ne!(a, b);
}
