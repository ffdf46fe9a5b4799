//! The client front end's mapping and rendering, and the full in-memory
//! round of one command: client encodes, server decodes, dispatches and
//! encodes, client decodes and renders.

use pose::client::{client_exit_code, command_for, no_server_message, render_response};
use pose::codec::{decode_command, decode_response, encode_command, encode_response};
use pose::dispatch::{DispatchStep, after_response, dispatch};
use pose::listener::{ListenerAction, ListenerEvent, ListenerState, listener_step};
use pose::message::{Command, Response};
use tokio::sync::broadcast;

#[test]
fn subcommands_map_to_commands() {
    let none = String::new();
    assert_eq!(command_for(&"status".to_string(), &none), Some(Command::GetStatus));
    assert_eq!(command_for(&"stop".to_string(), &none), Some(Command::Stop));
    assert_eq!(
        command_for(&"echo".to_string(), &"payload".to_string()),
        Some(Command::Echo("payload".to_string()))
    );
    assert_eq!(command_for(&"test".to_string(), &none), Some(Command::DatabaseTest));
    assert_eq!(command_for(&"parse".to_string(), &none), None);
    assert_eq!(command_for(&"".to_string(), &none), None);
}

#[test]
fn responses_render_for_the_user() {
    assert_eq!(render_response(&Response::Status), "Server Status: Active!");
    assert_eq!(render_response(&Response::StoppingServer), "Stopping Server!");
    assert_eq!(render_response(&Response::Echo("foo".to_string())), "foo");
    assert_eq!(render_response(&Response::Echo(String::new())), "");
    assert_eq!(
        render_response(&Response::DatabaseTestResponse(42)),
        "Database benchmark complete in: 42 ms"
    );
    assert_eq!(
        render_response(&Response::DatabaseTestResponse(0)),
        "Database benchmark complete in: 0 ms"
    );
    assert_eq!(
        render_response(&Response::DatabaseTestResponse(u64::MAX)),
        "Database benchmark complete in: 18446744073709551615 ms"
    );
}

#[test]
fn exit_codes() {
    assert_eq!(client_exit_code(true), 0);
    assert_eq!(client_exit_code(false), 1);
    assert_eq!(no_server_message(), "[Error] No active server found.");
}

/// One full round of a command through both ends of the wire, in memory.
fn round(cmd: Command) -> Response {
    let request = encode_command(&cmd);
    // server side
    let decoded = decode_command(&request).unwrap();
    let reply = match dispatch(&decoded) {
        DispatchStep::Reply(r) => r,
        DispatchStep::Benchmark => panic!("no benchmark in this round"),
    };
    let response_bytes = encode_response(&reply);
    // client side
    decode_response(&response_bytes).unwrap()
}

#[test]
fn status_round_prints_active() {
    let cmd = command_for(&"status".to_string(), &String::new()).unwrap();
    let resp = round(cmd);
    assert_eq!(resp, Response::Status);
    assert_eq!(render_response(&resp), "Server Status: Active!");
}

#[test]
fn echo_round_prints_the_payload() {
    let cmd = command_for(&"echo".to_string(), &"foo".to_string()).unwrap();
    let resp = round(cmd);
    assert_eq!(render_response(&resp), "foo");
}

#[test]
fn stop_round_acknowledges_then_publishes_then_stops_accepting() {
    let (tx, mut rx) = broadcast::channel::<()>(4);
    let cmd = command_for(&"stop".to_string(), &String::new()).unwrap();
    let request = encode_command(&cmd);
    let decoded = decode_command(&request).unwrap();
    let reply = match dispatch(&decoded) {
        DispatchStep::Reply(r) => r,
        DispatchStep::Benchmark => panic!("stop never benchmarks"),
    };
    // the response is queued before the event is published
    let response_bytes = encode_response(&reply);
    assert!(rx.try_recv().is_err());
    assert!(after_response(&decoded, &tx));
    assert!(rx.try_recv().is_ok());
    // the client reads the acknowledgement
    assert_eq!(decode_response(&response_bytes).unwrap(), Response::StoppingServer);
    // every subscribed accept loop observes the event and stops
    assert_eq!(
        listener_step(ListenerState::Accepting, ListenerEvent::ShutdownSignal),
        (ListenerState::Stopped, ListenerAction::StopAccepting)
    );
}
