//! Control plane of the `pose` server: the newline-delimited JSON wire codec
//! for control commands, the pure command dispatcher, the listener and
//! per-connection state machines, the start-time instance guard, and the
//! client-side rendering of responses.

pub mod message;
pub mod wire;
pub mod codec;
pub mod bus;
pub mod dispatch;
pub mod listener;
pub mod bench;
pub mod guard;
pub mod client;
pub mod token;
