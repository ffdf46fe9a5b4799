//! The client front end's own logic: which command a subcommand sends, how
//! a response is rendered for the user, and the exit status of a client
//! invocation. Connecting, sending and printing happen outside the library.

use vstd::prelude::*;
use vstd::string::StringExecFns;
use vstd::utf8::{decode_utf8, encode_utf8, valid_utf8};
use crate::codec::{push_decimal, string_from_bytes};
use crate::message::{Command, CommandModel, Response, ResponseModel};
use crate::wire::{decimal_rep, is_digit, lemma_decimal_rep_shape};

verus! {

/// The characters of the canonical decimal numeral of a number.
pub open spec fn decimal_chars(n: nat) -> Seq<char> {
    decimal_rep(n).map(|i: int, b: u8| b as char)
}

/// A sequence of ASCII bytes is valid UTF-8 and decodes to its bytes read
/// as characters.
proof fn lemma_ascii_bytes_decode(b: Seq<u8>)
    requires
        forall|i: int| 0 <= i < b.len() ==> b[i] < 128,
    ensures
        valid_utf8(b),
        decode_utf8(b) == b.map(|i: int, x: u8| x as char),
{
    let chars = b.map(|i: int, x: u8| x as char);
    assert(vstd::utf8::is_ascii_chars(chars)) by {
        assert(forall|i: int|
            0 <= i < chars.len() ==> '\0' <= #[trigger] chars[i] <= '\u{7f}');
    }
    vstd::utf8::is_ascii_chars_encode_utf8(chars);
    assert(encode_utf8(chars) =~= b);
    vstd::utf8::encode_utf8_valid_utf8(chars);
    vstd::utf8::encode_utf8_decode_utf8(chars);
}

/// How each response reads on the client's terminal.
pub open spec fn rendered_response(r: ResponseModel) -> Seq<char> {
    match r {
        ResponseModel::Status => "Server Status: Active!"@,
        ResponseModel::StoppingServer => "Stopping Server!"@,
        ResponseModel::Echo(t) => t,
        ResponseModel::DatabaseTestResponse(ms) => "Database benchmark complete in: "@
            + decimal_chars(ms as nat) + " ms"@,
    }
}

/// Render one response for the user: a fixed line for status and stop, the
/// mirrored payload for an echo, and the elapsed milliseconds for the
/// benchmark.
pub fn render_response(r: &Response) -> (s: String)
    ensures
        s@ == rendered_response(r@),
{
    match r {
        Response::Status => "Server Status: Active!".to_owned(),
        Response::StoppingServer => "Stopping Server!".to_owned(),
        Response::Echo(t) => t.clone(),
        Response::DatabaseTestResponse(ms) => {
            let mut digits: Vec<u8> = Vec::new();
            push_decimal(&mut digits, *ms);
            proof {
                lemma_decimal_rep_shape(*ms as nat);
                assert(forall|i: int|
                    0 <= i < digits@.len() ==> is_digit(#[trigger] digits@[i]));
                assert(forall|i: int| 0 <= i < digits@.len() ==> digits@[i] < 128);
                lemma_ascii_bytes_decode(digits@);
            }
            let rendered = string_from_bytes(digits);
            match rendered {
                Some(d) => {
                    let mut out = "Database benchmark complete in: ".to_owned();
                    out.append(d.as_str());
                    out.append(" ms");
                    out
                },
                None => vstd::pervasive::unreached(),
            }
        },
    }
}

/// The command each subcommand of the command line sends: `status` asks for
/// liveness, `stop` shuts the server down, `echo` carries its argument, and
/// `test` runs the benchmark. Anything else sends nothing.
pub fn command_for(name: &String, input: &String) -> (r: Option<Command>)
    ensures
        name@ == "status"@ ==> (r matches Some(c) && c@ == CommandModel::GetStatus),
        name@ == "stop"@ ==> (r matches Some(c) && c@ == CommandModel::Stop),
        name@ == "echo"@ ==> (r matches Some(c) && c@ == CommandModel::Echo(input@)),
        name@ == "test"@ ==> (r matches Some(c) && c@ == CommandModel::DatabaseTest),
        (name@ != "status"@ && name@ != "stop"@ && name@ != "echo"@ && name@ != "test"@) ==> r
            is None,
{
    proof {
        reveal_strlit("status");
        reveal_strlit("stop");
        reveal_strlit("echo");
        reveal_strlit("test");
        assert("status"@.len() == 6 && "stop"@.len() == 4 && "echo"@.len() == 4 && "test"@.len()
            == 4);
        assert("echo"@[0] == 'e' && "stop"@[0] == 's' && "test"@[0] == 't');
        assert("stop"@ != "echo"@ && "stop"@ != "test"@ && "echo"@ != "test"@);
    }
    if name.eq(&"status".to_owned()) {
        Some(Command::GetStatus)
    } else if name.eq(&"stop".to_owned()) {
        Some(Command::Stop)
    } else if name.eq(&"echo".to_owned()) {
        Some(Command::Echo(input.clone()))
    } else if name.eq(&"test".to_owned()) {
        Some(Command::DatabaseTest)
    } else {
        None
    }
}

/// The one-line diagnostic when no server answers at the socket path.
pub fn no_server_message() -> (s: String)
    ensures
        s@ == "[Error] No active server found."@,
{
    "[Error] No active server found.".to_owned()
}

/// A client invocation exits zero after a normal round trip and one when
/// no server was reachable.
pub fn client_exit_code(server_reached: bool) -> (c: i32)
    ensures
        server_reached ==> c == 0,
        !server_reached ==> c == 1,
{
    if server_reached {
        0
    } else {
        1
    }
}

} // verus!
