//! The protocol of `turnip`, an IP or Ethernet tunnel over a half-duplex serial line.
//!
//! Each side of the line takes turns to transmit packets to the other side.
//! A message starts with the preamble `0x00 0xFF 0xFF 0x01`, followed by a COBS encoded payload.
//! The payload is a packet list: a little endian 16-bit length and the packet data, for each packet.
//!
//! This crate holds everything that the tunnel decides and computes, without any I/O.
use vstd::prelude::*;

pub mod address;
pub mod buffer;
pub mod cobs;
pub mod controller;
pub mod error;
pub mod history;
pub mod line;
pub mod link;
pub mod netns;
pub mod options;
pub mod packets;
pub mod protocol;
pub mod text;
pub mod turns;
pub mod worker;

verus! {

/// The MTU of the tunnel interface, if not configured otherwise.
pub const DEFAULT_MTU: u16 = 512;

/// The maximum payload size, if not configured otherwise:
/// enough space for two MTU sized packets with their length.
pub const DEFAULT_MAX_PAYLOAD_SIZE: usize = 1028;

} // verus!
