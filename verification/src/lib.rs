//! Offline dissector for textual capture traces: reconstructs captured
//! segments from an ASCII transcript and decodes a session-framed,
//! fixed-layout application header out of each segment's payload.

pub mod prettify;
pub mod smb;
pub mod tcp;
pub mod tcpdump;
