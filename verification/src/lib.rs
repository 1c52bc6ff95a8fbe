//! Protocol engine of a client for a simulator's remote-control interface.
//!
//! The simulator announces itself with one UDP datagram and then serves a
//! persistent TCP session on which typed state reads, state writes and
//! commands travel as little-endian binary frames. Which states exist, and
//! which wire type each has, is told by the server in a textual schema, the
//! manifest.
//!
//! This crate holds everything that interprets or produces bytes: the value
//! codec, the manifest model, the incremental stream decoder, the outbound
//! command queue and the session rules. It performs no input or output
//! itself; the embedding program reads and writes the sockets and hands the
//! bytes over.

pub mod connection;
pub mod data;
pub mod error;
pub mod event_args;
pub mod helpers;
pub mod manifest;
pub mod outbound;
pub mod subscribers;
pub mod text;
pub mod typed_value;

use vstd::prelude::*;

verus! {

/// UDP port on which the simulator broadcasts its discovery datagram.
pub const UDP_PORT: u32 = 15000;

/// TCP port of the second version of the control interface.
pub const TCP_PORT_V2: u32 = 10112;

} // verus!
