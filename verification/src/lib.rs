//! An AMQP 0-9-1 wire-protocol codec: the binary framing layer and the typed
//! argument (de)serialization engine that turn byte streams into typed
//! protocol methods and content headers, and back.
//!
//! The codec is purely synchronous and in-memory; transport is left to the
//! caller. Every encoder and decoder carries a contract relating the bytes it
//! produces or consumes to a mathematical description of the wire format.

pub mod error;
pub mod wire;
pub mod bits;
pub mod codec;
pub mod framing;
pub mod method;
pub mod protocol;
pub mod table;
