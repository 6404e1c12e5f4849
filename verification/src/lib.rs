//! Decoding of a sensor's framed binary telemetry and fan-out of the decoded
//! records to any number of consumers.
//!
//! The byte stream is cut into checksummed frames ([`scan`], [`parser`]),
//! each frame's payload is split into sub-fields that are decoded through a
//! registry of field rules ([`field`], [`registry`], [`dispatch`]), and the
//! packets that go out are picked ([`feed`]). Rendered messages are handed to
//! every registered peer ([`hub`]) over channels of the `futures-channel`
//! crate ([`channel`]). A recorder ([`recorder`]) and a replay source
//! ([`replay`]) sit on either side of the hub.
//!
//! Reading the device, rendering, files, sockets and threads are left to the
//! program that uses the library.

mod bytes;
pub mod channel;
pub mod checksum;
pub mod dispatch;
pub mod feed;
pub mod field;
pub mod frame;
pub mod hub;
pub mod parser;
pub mod recorder;
pub mod registry;
pub mod replay;
pub mod scan;
mod table;
