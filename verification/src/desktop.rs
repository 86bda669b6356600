//! Launcher entries: copy an application's own `.desktop` file and patch the
//! few keys that make it start through bubbler.
//!
//! The vendor file is copied verbatim — every group, every key, every locale
//! — and only `Name`, `Exec`, `TryExec`, `DBusActivatable` and bubbler's own
//! marker key are rewritten. Nothing is dropped: a key nobody here understands
//! is exactly the key that must not be lost.

pub mod entry;
pub mod file_laws;
pub mod files;
pub mod laws;
pub mod lookup;
pub mod lookup_laws;
pub mod names;
pub mod owner_laws;
pub mod patch;
pub mod quote;
pub mod read_laws;

pub use crate::desktop::entry::{owner, MARKER};
pub use crate::desktop::files::{
    generated, may_write, program, remove, render, target, validate,
};
pub use crate::desktop::lookup::{source, Dirs};
pub use crate::desktop::patch::{patch, SUFFIX};
