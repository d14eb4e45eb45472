//! Streaming decoder for a length-prefixed, checksummed wire protocol.
//!
//! A connection starts with one handshake packet and continues with zero or
//! more data frames.  The caller owns a growable receive buffer, appends
//! inbound bytes at its tail, and calls the decoders in a loop; a decoder
//! consumes bytes only when a complete unit is present and verified.

pub mod buffer;
pub mod checksum;
pub mod err;
pub mod frame;
pub mod uid;

pub use err::FrameError;
pub use frame::{encode_frame, get_connect_packet, get_frame, ConnectPacket, Frame};
pub use uid::UID;
