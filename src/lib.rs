//! Framing transport for a byte-oriented serial link.
//!
//! Payload bytes are stuffed with COBS, prefixed with a length byte and
//! terminated by a zero, then moved through single-producer /
//! single-consumer ring buffers. The receiving side resynchronizes on
//! corrupted or partial input and yields at most one payload per call.
//!
//! Beside the transport: the hardware capabilities the device logic is
//! written against, and the command line of the host console.
pub mod codec;
pub mod command;
pub mod console;
pub mod device;
pub mod error;
pub mod frame;
pub mod queue;
pub mod receive;
pub mod send;
pub mod session;
