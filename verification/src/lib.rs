//! A buffered text console for the memory-mapped 80x25 character display.
//!
//! The crate never touches the machine itself. Every operation that concerns
//! the device returns the list of accesses, in order, that a caller with the
//! necessary privileges has to carry out.
//!
//! - `memio`: accesses to memory and to I/O ports, and the bytes of values.
//! - `tty::vgatext`: colors, cells and the layout of the display.
//! - `tty`: the console, `tty::console` being what its contracts speak of.
//! - `fatal`: the message of a fatal error, which bypasses the console.
//! - `logging`: log lines for the serial port.

pub mod fatal;
pub mod logging;
pub mod memio;
pub mod tty;
