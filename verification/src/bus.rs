//! The shutdown signal bus: a single-producer, multi-subscriber broadcast
//! primitive carrying a zero-payload terminate event. The sender half is
//! shared by the command dispatcher and the process's signal watcher;
//! receivers are awaited outside the library, by the accept loops they
//! cancel.

use vstd::prelude::*;
use tokio::sync::broadcast::Sender;

verus! {

/// tokio's broadcast sender, declared so the shutdown publisher handle can
/// run through verified signatures.
#[verifier::external_type_specification]
#[verifier::external_body]
#[verifier::reject_recursive_types(T)]
pub struct ExSender<T>(Sender<T>);

/// Publish one shutdown event.
///
/// Relies on tokio's `broadcast::Sender::send`: it hands the event to every
/// receiver subscribed at the call and returns an error only when no
/// receiver remains. That error is discarded here, so publishing is always
/// safe to repeat and never reports a failure to the caller.
#[verifier::external_body]
pub(crate) fn send_shutdown_event(bus: &Sender<()>) {
    let _ = bus.send(());
}

} // verus!
