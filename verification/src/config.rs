//! KDL instance and profile configuration. Each top-level node is either a
//! service grant or `command`. Unknown nodes are errors: silently ignoring a
//! grant would produce a different sandbox than the file says.

pub mod bounds;
pub mod plain;
pub mod document;
pub mod address;
pub mod address_laws;
pub mod model;
pub mod node;
pub mod grants;
pub mod bus;
pub mod network;
pub mod settings;
pub mod parse;
pub mod laws;
pub mod line_laws;
pub mod entry_laws;
pub mod grant_laws;
pub mod network_laws;
pub mod value_laws;
pub mod layer_laws;
pub mod refusal_laws;
pub mod scan_laws;
pub mod model_laws;
pub mod word_laws;
pub mod setting_laws;

pub use crate::config::bus::is_bus_name;
pub use crate::config::document::parse_document;
pub use crate::config::model::{
    BusRule, InstanceConfig, Lines, LintAllow, NestedX11, RawProfile, Service, ShareMode, Userns,
    WaylandMode, X11Mode,
};
pub use crate::config::parse::{node_lines, parse, parse_profile, NODES};
pub use crate::config::settings::Names;
