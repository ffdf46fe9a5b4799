//! The command dispatcher: a pure mapping from one decoded command to the
//! response it earns, with the database benchmark and the shutdown publish
//! as its only side effects — and the shutdown published strictly after the
//! response has been queued.

use vstd::prelude::*;
use tokio::sync::broadcast::Sender;
use crate::bus::send_shutdown_event;
use crate::message::{CodecError, Command, CommandModel, Response, ResponseModel};
use crate::wire::{
    NL, command_record, decoded_command, decoded_response, lemma_command_round_trip,
    lemma_response_round_trip, response_record,
};

verus! {

/// What the dispatcher decides for one command: reply at once, or run the
/// timed bulk-insert benchmark first.
#[derive(Debug, PartialEq)]
pub enum DispatchStep {
    Reply(Response),
    Benchmark,
}

/// Mathematical model of a dispatch decision.
pub enum DispatchStepModel {
    Reply(ResponseModel),
    Benchmark,
}

impl View for DispatchStep {
    type V = DispatchStepModel;

    open spec fn view(&self) -> DispatchStepModel {
        match self {
            DispatchStep::Reply(r) => DispatchStepModel::Reply(r@),
            DispatchStep::Benchmark => DispatchStepModel::Benchmark,
        }
    }
}

/// The dispatch table: a status request earns `Status`, a stop request
/// earns `StoppingServer`, an echo mirrors its payload, and the benchmark
/// request defers its reply until the benchmark ran.
pub open spec fn dispatched(c: CommandModel) -> DispatchStepModel {
    match c {
        CommandModel::GetStatus => DispatchStepModel::Reply(ResponseModel::Status),
        CommandModel::Stop => DispatchStepModel::Reply(ResponseModel::StoppingServer),
        CommandModel::Echo(t) => DispatchStepModel::Reply(ResponseModel::Echo(t)),
        CommandModel::DatabaseTest => DispatchStepModel::Benchmark,
    }
}

/// Decide what one command earns. Pure: the only commands whose handling
/// touches the world (`Stop`, `DatabaseTest`) hand that work back to the
/// caller as data.
pub fn dispatch(c: &Command) -> (step: DispatchStep)
    ensures
        step@ == dispatched(c@),
{
    match c {
        Command::GetStatus => DispatchStep::Reply(Response::Status),
        Command::Stop => DispatchStep::Reply(Response::StoppingServer),
        Command::Echo(s) => DispatchStep::Reply(Response::Echo(s.clone())),
        Command::DatabaseTest => DispatchStep::Benchmark,
    }
}

/// The command's follow-up effect, to be run only after its response has
/// been queued for sending: a stop command publishes the shutdown event,
/// nothing else does. Returns whether an event was published.
pub fn after_response(c: &Command, bus: &Sender<()>) -> (published: bool)
    ensures
        published == (c@ is Stop),
{
    match c {
        Command::Stop => {
            send_shutdown_event(bus);
            true
        },
        _ => false,
    }
}

/// A status request always earns the `Status` reply, and the framed reply
/// reads back as `Status` on the client side: the connection sees its
/// response, never a silent close.
pub proof fn lemma_status_reply_round()
    ensures
        dispatched(CommandModel::GetStatus) == DispatchStepModel::Reply(ResponseModel::Status),
        decoded_response(response_record(ResponseModel::Status).push(NL)) == Ok::<
            ResponseModel,
            CodecError,
        >(ResponseModel::Status),
{
    lemma_response_round_trip(ResponseModel::Status);
}

/// A stop request is acknowledged with `StoppingServer`, and the framed
/// acknowledgement reads back as `StoppingServer` on the client side.
pub proof fn lemma_stop_acknowledged()
    ensures
        dispatched(CommandModel::Stop) == DispatchStepModel::Reply(ResponseModel::StoppingServer),
        decoded_response(response_record(ResponseModel::StoppingServer).push(NL)) == Ok::<
            ResponseModel,
            CodecError,
        >(ResponseModel::StoppingServer),
{
    lemma_response_round_trip(ResponseModel::StoppingServer);
}

/// Echo identity, end to end for every payload: the framed echo request
/// reads back as the same payload on the server, the dispatcher mirrors it,
/// and the framed reply reads back as the same payload on the client.
pub proof fn lemma_echo_identity(t: Seq<char>)
    ensures
        decoded_command(command_record(CommandModel::Echo(t)).push(NL)) == Ok::<
            CommandModel,
            CodecError,
        >(CommandModel::Echo(t)),
        dispatched(CommandModel::Echo(t)) == DispatchStepModel::Reply(ResponseModel::Echo(t)),
        decoded_response(response_record(ResponseModel::Echo(t)).push(NL)) == Ok::<
            ResponseModel,
            CodecError,
        >(ResponseModel::Echo(t)),
{
    lemma_command_round_trip(CommandModel::Echo(t));
    lemma_response_round_trip(ResponseModel::Echo(t));
}

} // verus!
