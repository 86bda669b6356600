//! A minimal D-Bus client for the session bus: the wire format, the messages
//! and the conversation of the few calls that are made on the user's own bus.
//!
//! Every wire fact is from the D-Bus specification
//! (<https://dbus.freedesktop.org/doc/dbus-specification.html>), sections
//! "Type System", "Message Format" and "Authentication Protocol". The decoder
//! is strict on purpose: a reply is input from another process, and a length,
//! an alignment or a padding byte that does not match the specification is a
//! reason to fail the call, never to guess.

pub mod decode;
pub mod describe;
pub mod encode;
pub mod laws;
pub mod bytes_laws;
pub mod call_laws;
pub mod message;
pub mod message_laws;
pub mod number;
pub mod session;
pub mod session_laws;
pub mod signature;
pub mod value;

pub use crate::dbus_wire::decode::decode;
pub use crate::dbus_wire::encode::encode;
pub use crate::dbus_wire::session::Session;
pub use crate::dbus_wire::value::{Value, WireError};
