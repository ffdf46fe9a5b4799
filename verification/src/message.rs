//! The command/response unions exchanged over the control socket, one
//! command and one response per connection.

use vstd::prelude::*;

verus! {

/// A control-channel request sent client-to-server. Exactly one command is
/// read per connection.
#[derive(Debug, PartialEq)]
pub enum Command {
    /// Ask whether the server is alive.
    GetStatus,
    /// Ask the server to shut down.
    Stop,
    /// Ask the server to mirror the payload back.
    Echo(String),
    /// Ask the server to run the timed bulk-insert benchmark.
    DatabaseTest,
}

/// A control-channel reply sent server-to-client, semantically paired to the
/// command that produced it. Exactly one response is written per connection.
#[derive(Debug, PartialEq)]
pub enum Response {
    /// The server is alive.
    Status,
    /// Shutdown has been initiated.
    StoppingServer,
    /// The mirrored payload of an echo command.
    Echo(String),
    /// Elapsed wall-clock milliseconds of the bulk-insert benchmark.
    DatabaseTestResponse(u64),
}

/// Mathematical model of a `Command`: the echo payload is a character
/// sequence.
pub enum CommandModel {
    GetStatus,
    Stop,
    Echo(Seq<char>),
    DatabaseTest,
}

/// Mathematical model of a `Response`.
pub enum ResponseModel {
    Status,
    StoppingServer,
    Echo(Seq<char>),
    DatabaseTestResponse(u64),
}

impl View for Command {
    type V = CommandModel;

    open spec fn view(&self) -> CommandModel {
        match self {
            Command::GetStatus => CommandModel::GetStatus,
            Command::Stop => CommandModel::Stop,
            Command::Echo(s) => CommandModel::Echo(s@),
            Command::DatabaseTest => CommandModel::DatabaseTest,
        }
    }
}

impl View for Response {
    type V = ResponseModel;

    open spec fn view(&self) -> ResponseModel {
        match self {
            Response::Status => ResponseModel::Status,
            Response::StoppingServer => ResponseModel::StoppingServer,
            Response::Echo(s) => ResponseModel::Echo(s@),
            Response::DatabaseTestResponse(ms) => ResponseModel::DatabaseTestResponse(*ms),
        }
    }
}

/// Why a record could not be decoded.
#[derive(Debug, PartialEq, Eq, Structural, Clone, Copy)]
pub enum CodecError {
    /// The bytes before the newline are not a well-formed record of the
    /// expected union.
    MalformedMessage,
    /// The stream ended before a newline was seen.
    ConnectionClosed,
}

} // verus!
