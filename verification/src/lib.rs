//! Protocol engine of an in-RAM firmware loader.
//!
//! The loader receives a new program image over a byte-oriented serial
//! channel, writes it into a fixed RAM window, and finally hands control
//! over to the loaded image. This crate holds the verified core of that
//! protocol: frame reassembly, message encoding and decoding, address
//! validation, the bounded memory write, and the terminal execution
//! handoff, all driven by a small dispatch state machine. The transport
//! itself (a USB CDC serial port on the real device) is an external
//! collaborator that only moves bytes in and out.

pub mod cobs;
pub mod codec;
pub mod frame;
pub mod loader;
pub mod messages;
pub mod ram;
pub mod varint;
pub mod window;
