//! A line transcoder for a katcp-like control protocol.
//!
//! A hardware device speaks a line-oriented ASCII protocol whose read
//! replies and write requests carry a trailing raw binary payload; the
//! control client needs those payloads base64-encoded. This crate holds
//! the verified core of a relay between the two: line-terminator framing
//! and the two per-line transformations, each proved lossless and
//! reversible on the recognized line shapes.

pub mod b64;
pub mod framing;
pub mod transcode;
pub mod utf8;
