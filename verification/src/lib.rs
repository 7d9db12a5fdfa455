//! PulseMQ: an event streaming platform with its own native wire protocol,
//! its own segment-based storage format, and a Kafka compatibility layer.
//!
//! The library holds the byte-level logic of the platform: the native frame
//! header codec, the Kafka request parser and response builders, the storage
//! record layout and segment bookkeeping, and the per-connection request
//! state machine. Everything that touches sockets, files, the clock or the
//! environment lives in the broker program around it.

pub mod broker;
pub mod buffer;
pub mod native;
pub mod protocol;
pub mod storage;

use vstd::prelude::*;

verus! {

/// `std::io::Error`, carried by the error types of the library on behalf of
/// the broker's I/O.
#[verifier::external_type_specification]
#[verifier::external_body]
pub struct ExIoError(std::io::Error);

} // verus!
