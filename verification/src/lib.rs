//! Transport and command engine for G-code devices on line-oriented byte
//! streams.
//!
//! Everything here is pure logic on plain values: the line encoder, the
//! acknowledgement parser, the pending-request table of a session, the command
//! language with its macro table and task registry, and the logger pattern
//! language. Nothing in this crate touches a stream, a clock or a thread; the
//! program around it performs the actions these functions decide on.
//!
//! - [`encoder`] renders a command as a line, with or without sequence number
//!   and checksum, and owns the sequence counter of a session.
//! - [`response`] reads the acknowledgements of a device.
//! - [`session`] keeps the requests that await an acknowledgement and decides
//!   what each line of the device does to them; [`printer`] is the state of
//!   the session itself.
//! - [`commands`] and [`connect`] read the command language; [`commander`]
//!   carries a command out on the macro table of [`macros`] and the registry
//!   of [`tasks`].
//! - [`log`] compiles and runs logger patterns.
//! - [`text`] and [`number`] hold what the parsers share.
//!
//! Text is held as bytes throughout. Floating-point numbers pass through as
//! their decimal notation: whoever needs their worth reads it from there.

pub mod commander;
pub mod commands;
pub mod connect;
pub mod encoder;
pub mod help;
pub mod info;
pub mod log;
pub mod macros;
pub mod number;
pub mod printer;
pub mod response;
pub mod session;
pub mod tasks;
pub mod text;
pub mod version;
