//! The codec's failure contract: a stream that ends without a newline is a
//! closed connection; anything before the newline that is not a well-formed
//! record of the expected union is malformed.

use pose::codec::{decode_command, decode_response};
use pose::message::{CodecError, Command, Response};

#[test]
fn missing_newline_means_connection_closed() {
    assert_eq!(
        decode_command(&b"{\"GetStatus\":null}".to_vec()),
        Err(CodecError::ConnectionClosed)
    );
    assert_eq!(decode_command(&Vec::new()), Err(CodecError::ConnectionClosed));
    assert_eq!(
        decode_response(&b"{\"Status\":null}".to_vec()),
        Err(CodecError::ConnectionClosed)
    );
}

#[test]
fn garbage_is_malformed() {
    assert_eq!(
        decode_command(&b"garbage\n".to_vec()),
        Err(CodecError::MalformedMessage)
    );
    assert_eq!(decode_command(&b"\n".to_vec()), Err(CodecError::MalformedMessage));
    assert_eq!(
        decode_command(&b"{\"GetStatus\":null} \n".to_vec()),
        Err(CodecError::MalformedMessage)
    );
}

#[test]
fn wrong_union_is_malformed() {
    assert_eq!(
        decode_command(&b"{\"Status\":null}\n".to_vec()),
        Err(CodecError::MalformedMessage)
    );
    assert_eq!(
        decode_response(&b"{\"GetStatus\":null}\n".to_vec()),
        Err(CodecError::MalformedMessage)
    );
    assert_eq!(
        decode_command(&b"{\"Nope\":null}\n".to_vec()),
        Err(CodecError::MalformedMessage)
    );
}

#[test]
fn broken_string_payloads_are_malformed() {
    assert_eq!(
        decode_command(&b"{\"Echo\":\"unterminated}\n".to_vec()),
        Err(CodecError::MalformedMessage)
    );
    assert_eq!(
        decode_command(&b"{\"Echo\":\"bad \\x escape\"}\n".to_vec()),
        Err(CodecError::MalformedMessage)
    );
    assert_eq!(
        decode_command(&b"{\"Echo\":\"raw \" quote\"}\n".to_vec()),
        Err(CodecError::MalformedMessage)
    );
    assert_eq!(
        decode_command(&b"{\"Echo\":\"trailing backslash\\\"}\n".to_vec()),
        Err(CodecError::MalformedMessage)
    );
}

#[test]
fn raw_newline_in_payload_cuts_the_frame() {
    // an unescaped newline ends the frame early, leaving a truncated record
    assert_eq!(
        decode_command(&b"{\"Echo\":\"ab\ncd\"}\n".to_vec()),
        Err(CodecError::MalformedMessage)
    );
}

#[test]
fn invalid_utf8_payload_is_malformed() {
    let mut bytes = b"{\"Echo\":\"".to_vec();
    bytes.push(0xff);
    bytes.extend_from_slice(b"\"}\n");
    assert_eq!(decode_command(&bytes), Err(CodecError::MalformedMessage));
}

#[test]
fn bad_numerals_are_malformed() {
    assert_eq!(
        decode_response(&b"{\"DatabaseTestResponse\":01}\n".to_vec()),
        Err(CodecError::MalformedMessage)
    );
    assert_eq!(
        decode_response(&b"{\"DatabaseTestResponse\":}\n".to_vec()),
        Err(CodecError::MalformedMessage)
    );
    assert_eq!(
        decode_response(&b"{\"DatabaseTestResponse\":-3}\n".to_vec()),
        Err(CodecError::MalformedMessage)
    );
    assert_eq!(
        decode_response(&b"{\"DatabaseTestResponse\":12x4}\n".to_vec()),
        Err(CodecError::MalformedMessage)
    );
    // one past u64::MAX
    assert_eq!(
        decode_response(&b"{\"DatabaseTestResponse\":18446744073709551616}\n".to_vec()),
        Err(CodecError::MalformedMessage)
    );
    // u64::MAX itself is fine
    assert_eq!(
        decode_response(&b"{\"DatabaseTestResponse\":18446744073709551615}\n".to_vec()),
        Ok(Response::DatabaseTestResponse(u64::MAX))
    );
}

#[test]
fn accepted_escape_forms() {
    assert_eq!(
        decode_command(&b"{\"Echo\":\"\\u0002\"}\n".to_vec()),
        Ok(Command::Echo("\u{2}".to_string()))
    );
    assert_eq!(
        decode_command(&b"{\"Echo\":\"\\n\\t\\r\\b\\f\\\\\\\"\"}\n".to_vec()),
        Ok(Command::Echo("\n\t\r\u{8}\u{c}\\\"".to_string()))
    );
    // an escape naming a byte outside the control range is refused
    assert_eq!(
        decode_command(&b"{\"Echo\":\"\\u0041\"}\n".to_vec()),
        Err(CodecError::MalformedMessage)
    );
}
