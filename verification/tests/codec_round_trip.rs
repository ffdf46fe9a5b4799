//! Round trips of the command/response codec, and the exact wire shapes.

use pose::codec::{decode_command, decode_response, encode_command, encode_response};
use pose::message::{Command, Response};

fn command_round_trip(c: Command) {
    let bytes = encode_command(&c);
    let back = decode_command(&bytes);
    assert_eq!(back, Ok(c));
}

fn response_round_trip(r: Response) {
    let bytes = encode_response(&r);
    let back = decode_response(&bytes);
    assert_eq!(back, Ok(r));
}

#[test]
fn command_unit_variants_round_trip() {
    command_round_trip(Command::GetStatus);
    command_round_trip(Command::Stop);
    command_round_trip(Command::DatabaseTest);
}

#[test]
fn command_echo_round_trips() {
    command_round_trip(Command::Echo(String::new()));
    command_round_trip(Command::Echo("hello".to_string()));
    command_round_trip(Command::Echo("with \"quotes\" and \\ backslash".to_string()));
    command_round_trip(Command::Echo("line\nbreak\ttab\rreturn".to_string()));
    command_round_trip(Command::Echo("control \u{1} byte".to_string()));
    command_round_trip(Command::Echo("h\u{e9}llo w\u{f6}rld \u{2206} \u{1f600}".to_string()));
    command_round_trip(Command::Echo("{\"Echo\":\"nested\"}".to_string()));
}

#[test]
fn response_variants_round_trip() {
    response_round_trip(Response::Status);
    response_round_trip(Response::StoppingServer);
    response_round_trip(Response::Echo("hello".to_string()));
    response_round_trip(Response::Echo(String::new()));
    response_round_trip(Response::DatabaseTestResponse(0));
    response_round_trip(Response::DatabaseTestResponse(12345));
    response_round_trip(Response::DatabaseTestResponse(u64::MAX));
}

#[test]
fn exact_wire_shapes() {
    assert_eq!(encode_command(&Command::GetStatus), b"{\"GetStatus\":null}\n".to_vec());
    assert_eq!(encode_command(&Command::Stop), b"{\"Stop\":null}\n".to_vec());
    assert_eq!(encode_command(&Command::DatabaseTest), b"{\"DatabaseTest\":null}\n".to_vec());
    assert_eq!(
        encode_command(&Command::Echo("hello".to_string())),
        b"{\"Echo\":\"hello\"}\n".to_vec()
    );
    assert_eq!(encode_response(&Response::Status), b"{\"Status\":null}\n".to_vec());
    assert_eq!(
        encode_response(&Response::StoppingServer),
        b"{\"StoppingServer\":null}\n".to_vec()
    );
    assert_eq!(
        encode_response(&Response::DatabaseTestResponse(12345)),
        b"{\"DatabaseTestResponse\":12345}\n".to_vec()
    );
}

#[test]
fn escapes_on_the_wire() {
    let bytes = encode_command(&Command::Echo("a\"b\\c\nd".to_string()));
    assert_eq!(bytes, b"{\"Echo\":\"a\\\"b\\\\c\\nd\"}\n".to_vec());
    let bytes = encode_command(&Command::Echo("\u{1}".to_string()));
    assert_eq!(bytes, b"{\"Echo\":\"\\u0001\"}\n".to_vec());
}

#[test]
fn encoded_record_has_no_raw_newline_before_frame_end() {
    let bytes = encode_command(&Command::Echo("line\nbreak\nmore\n".to_string()));
    let first_nl = bytes.iter().position(|b| *b == b'\n').unwrap();
    assert_eq!(first_nl, bytes.len() - 1);
}

#[test]
fn bytes_after_the_first_newline_are_ignored() {
    let mut bytes = encode_command(&Command::Stop);
    bytes.extend_from_slice(b"trailing garbage");
    assert_eq!(decode_command(&bytes), Ok(Command::Stop));
}

#[test]
fn wire_records_are_valid_json() {
    let bytes = encode_command(&Command::Echo("he\"llo\n\u{2206}".to_string()));
    let v: serde_json::Value = serde_json::from_slice(&bytes[..bytes.len() - 1]).unwrap();
    assert_eq!(v["Echo"].as_str().unwrap(), "he\"llo\n\u{2206}");

    let bytes = encode_command(&Command::GetStatus);
    let v: serde_json::Value = serde_json::from_slice(&bytes[..bytes.len() - 1]).unwrap();
    assert!(v["GetStatus"].is_null());

    let bytes = encode_response(&Response::DatabaseTestResponse(987654321));
    let v: serde_json::Value = serde_json::from_slice(&bytes[..bytes.len() - 1]).unwrap();
    assert_eq!(v["DatabaseTestResponse"].as_u64().unwrap(), 987654321);
}

#[test]
fn json_written_elsewhere_decodes() {
    let mut bytes = format!("{}\n", "{\"Echo\":\"hi\"}").into_bytes();
    assert_eq!(decode_command(&bytes), Ok(Command::Echo("hi".to_string())));
    bytes = format!("{}\n", "{\"DatabaseTestResponse\":42}").into_bytes();
    assert_eq!(
        decode_response(&bytes),
        Ok(Response::DatabaseTestResponse(42))
    );
}
