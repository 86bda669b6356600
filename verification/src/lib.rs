//! The logic of a desktop sandbox runner.

pub mod audio_policy;
pub mod bwrap;
pub mod bwrap_calls;
pub mod bwrap_argv_laws;
pub mod bwrap_laws;
pub mod catalogue;
pub mod cgroup;
pub mod cgroup_laws;
pub mod config;
pub mod dbus;
pub mod dbus_wire;
pub mod desktop;
pub mod env;
pub mod error;
pub mod error_laws;
pub mod exec;
pub mod exec_laws;
pub mod host;
pub mod host_laws;
pub mod path_laws;
pub mod paths;
pub mod split;
pub mod text;
pub mod text_laws;
