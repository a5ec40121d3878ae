//! Core of an IC WebSocket gateway: the message codec, the first-iteration
//! filter, the per-canister poller state machine with its demultiplexer, and
//! the per-client session state machine. All I/O (WebSocket frames, backend
//! RPC, channels between tasks) lives outside this crate; the functions here
//! take the received values as arguments and return the values to send.

pub mod cbor;
pub mod codec;
pub mod demux;
pub mod poller;
pub mod session;
pub mod types;

use vstd::prelude::*;

verus! {

} // verus!
